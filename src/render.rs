use vstd::prelude::*;
use crate::window::{Counters, LATEST_SECS};

verus! {

/// The byte `|` that separates the columns of a table row.
pub const BAR: u8 = 0x7c;

/// The byte that ends a line.
pub const NEWLINE: u8 = 0x0a;

/// The byte that pads a centered column.
pub const SPACE: u8 = 0x20;

/// The ASCII digit `0`.
pub const ZERO: u8 = 0x30;

/// Width of the date column of the pretty table.
pub const DATE_WIDTH: usize = 22;

/// Width of each count column of the pretty table.
pub const COUNT_WIDTH: usize = 18;

/// The text of the UTC date and time `secs` seconds after the epoch, written
/// day-month-year and 24-hour time (`dd-mm-yyyy HH:MM:SS`).
pub uninterp spec fn timestamp_of(secs: u64) -> Seq<u8>;

/// Relies on chrono's `DateTime::<Utc>::from_timestamp`, which is in range for every
/// time up to the end of the year 9999, and on its `%d-%m-%Y %T` format: the text
/// depends on `secs` alone.
#[verifier::external_body]
fn timestamp_text(secs: u64) -> (r: Vec<u8>)
    requires
        secs <= LATEST_SECS,
    ensures
        r@ == timestamp_of(secs),
{
    match chrono::DateTime::<chrono::Utc>::from_timestamp(secs as i64, 0) {
        Some(dt) => dt.format("%d-%m-%Y %T").to_string().into_bytes(),
        None => Vec::new(),
    }
}

/// The decimal digits of `n`, most significant first, without leading zeros.
pub open spec fn decimal(n: nat) -> Seq<u8>
    decreases n,
{
    if n < 10 {
        seq![(ZERO + n) as u8]
    } else {
        decimal(n / 10).push((ZERO + n % 10) as u8)
    }
}

/// `n` blanks.
pub open spec fn spaces(n: nat) -> Seq<u8> {
    Seq::new(n, |i: int| SPACE)
}

/// `s` centered in a column of `width` bytes: of the blanks that pad it, the
/// smaller half goes left. A text at least as wide as the column is left as it is.
pub open spec fn center(s: Seq<u8>, width: nat) -> Seq<u8> {
    if s.len() >= width {
        s
    } else {
        let pad = (width - s.len()) as nat;
        spaces(pad / 2) + s + spaces((pad - pad / 2) as nat)
    }
}

/// A table row of six columns: each column is closed by `|`, and the row opens with one.
pub open spec fn row6(f: Seq<Seq<u8>>) -> Seq<u8> {
    seq![BAR] + f[0] + seq![BAR] + f[1] + seq![BAR] + f[2] + seq![BAR] + f[3] + seq![BAR] + f[4]
        + seq![BAR] + f[5] + seq![BAR]
}

/// A column text as it stands in the table: centered in `width` bytes in the
/// pretty table, as it is in the plain one.
pub open spec fn fit(s: Seq<u8>, width: usize, pretty: bool) -> Seq<u8> {
    if pretty {
        center(s, width as nat)
    } else {
        s
    }
}

/// The six columns of a row, the first of the date column's width.
pub open spec fn fit6(f: Seq<Seq<u8>>, pretty: bool) -> Seq<Seq<u8>> {
    seq![
        fit(f[0], DATE_WIDTH, pretty),
        fit(f[1], COUNT_WIDTH, pretty),
        fit(f[2], COUNT_WIDTH, pretty),
        fit(f[3], COUNT_WIDTH, pretty),
        fit(f[4], COUNT_WIDTH, pretty),
        fit(f[5], COUNT_WIDTH, pretty),
    ]
}

/// The title of the date column.
pub open spec fn first_title(pretty: bool) -> Seq<u8> {
    if pretty {
        date_title()
    } else {
        seq![0x64u8, 0x74u8]
    }
}

/// The title of the count column of class `class`.
pub open spec fn count_title_spec(class: nat, pretty: bool) -> Seq<u8> {
    if pretty {
        pretty_title(class)
    } else {
        plain_title(class)
    }
}

/// The column texts of the header of either table.
pub open spec fn header_fields(pretty: bool) -> Seq<Seq<u8>> {
    fit6(
        seq![
            first_title(pretty),
            count_title_spec(1, pretty),
            count_title_spec(2, pretty),
            count_title_spec(3, pretty),
            count_title_spec(4, pretty),
            count_title_spec(5, pretty),
        ],
        pretty,
    )
}

/// `DateTime`
pub open spec fn date_title() -> Seq<u8> {
    seq![0x44u8, 0x61u8, 0x74u8, 0x65u8, 0x54u8, 0x69u8, 0x6du8, 0x65u8]
}

/// `HTTP_<class>00`
pub open spec fn plain_title(class: nat) -> Seq<u8> {
    seq![0x48u8, 0x54u8, 0x54u8, 0x50u8, 0x5fu8] + decimal(class * 100)
}

/// `# HTTP <class>00`
pub open spec fn pretty_title(class: nat) -> Seq<u8> {
    seq![0x23u8, SPACE, 0x48u8, 0x54u8, 0x54u8, 0x50u8, SPACE] + decimal(class * 100)
}

/// The column texts of the row of bucket `b`, before they are fitted to the columns.
pub open spec fn bucket_texts(b: Counters) -> Seq<Seq<u8>> {
    seq![
        timestamp_of(b.moment),
        decimal(b.stats100 as nat),
        decimal(b.stats200 as nat),
        decimal(b.stats300 as nat),
        decimal(b.stats400 as nat),
        decimal(b.stats500 as nat),
    ]
}

/// The column texts of the row of bucket `b`.
pub open spec fn bucket_fields(b: Counters, pretty: bool) -> Seq<Seq<u8>> {
    fit6(bucket_texts(b), pretty)
}

/// The row of bucket `b`.
pub open spec fn bucket_row(b: Counters, pretty: bool) -> Seq<u8> {
    row6(bucket_fields(b, pretty))
}

/// The rows of `bs`, one per line, with no newline after the last.
pub open spec fn bucket_lines(bs: Seq<Counters>, pretty: bool) -> Seq<u8>
    decreases bs.len(),
{
    if bs.len() == 0 {
        seq![]
    } else if bs.len() == 1 {
        bucket_row(bs[0], pretty)
    } else {
        bucket_lines(bs.drop_last(), pretty) + seq![NEWLINE] + bucket_row(bs.last(), pretty)
    }
}

/// The whole table: header line, one line per bucket, oldest first, and a final newline.
pub open spec fn rendered(bs: Seq<Counters>, pretty: bool) -> Seq<u8> {
    row6(header_fields(pretty)) + seq![NEWLINE] + bucket_lines(bs, pretty) + seq![NEWLINE]
}

/// Appends `s` to `out`.
fn append(out: &mut Vec<u8>, s: &Vec<u8>)
    ensures
        final(out)@ == old(out)@ + s@,
{
    let mut i: usize = 0;
    while i < s.len()
        invariant
            i <= s@.len(),
            out@ == old(out)@ + s@.subrange(0, i as int),
        decreases s@.len() - i,
    {
        out.push(s[i]);
        i = i + 1;
        assert(out@ =~= old(out)@ + s@.subrange(0, i as int));
    }
    assert(s@.subrange(0, i as int) =~= s@);
}

/// Appends the decimal digits of `n` to `out`.
pub fn push_decimal(out: &mut Vec<u8>, n: u64)
    ensures
        final(out)@ == old(out)@ + decimal(n as nat),
    decreases n,
{
    if n >= 10 {
        push_decimal(out, n / 10);
    }
    out.push(ZERO + (n % 10) as u8);
    proof {
        if n >= 10 {
            assert(final(out)@ =~= old(out)@ + decimal(n as nat));
        } else {
            assert(final(out)@ =~= old(out)@ + decimal(n as nat));
        }
    }
}

/// Appends `n` blanks to `out`.
fn push_spaces(out: &mut Vec<u8>, n: usize)
    ensures
        final(out)@ == old(out)@ + spaces(n as nat),
{
    let mut i: usize = 0;
    while i < n
        invariant
            i <= n,
            out@ == old(out)@ + spaces(i as nat),
        decreases n - i,
    {
        out.push(SPACE);
        i = i + 1;
        assert(out@ =~= old(out)@ + spaces(i as nat));
    }
}

/// Appends `s` centered in a column of `width` bytes.
fn push_centered(out: &mut Vec<u8>, s: &Vec<u8>, width: usize)
    ensures
        final(out)@ == old(out)@ + center(s@, width as nat),
{
    if s.len() >= width {
        append(out, s);
    } else {
        let pad = width - s.len();
        push_spaces(out, pad / 2);
        append(out, s);
        push_spaces(out, pad - pad / 2);
        assert(final(out)@ =~= old(out)@ + center(s@, width as nat));
    }
}

/// Appends one column text, centered when `pretty`, and the `|` that closes it.
fn push_field(out: &mut Vec<u8>, s: &Vec<u8>, width: usize, pretty: bool)
    ensures
        final(out)@ == old(out)@ + fit(s@, width, pretty) + seq![BAR],
{
    if pretty {
        push_centered(out, s, width);
    } else {
        append(out, s);
    }
    out.push(BAR);
}

/// The title text of the count column of class `class` (1 to 5).
fn count_title(class: u64, pretty: bool) -> (r: Vec<u8>)
    requires
        1 <= class <= 5,
    ensures
        r@ == count_title_spec(class as nat, pretty),
{
    let mut t: Vec<u8> = if pretty {
        vec![0x23u8, SPACE, 0x48u8, 0x54u8, 0x54u8, 0x50u8, SPACE]
    } else {
        vec![0x48u8, 0x54u8, 0x54u8, 0x50u8, 0x5fu8]
    };
    let ghost start = t@;
    push_decimal(&mut t, class * 100);
    assert(start == (if pretty {
        seq![0x23u8, SPACE, 0x48u8, 0x54u8, 0x54u8, 0x50u8, SPACE]
    } else {
        seq![0x48u8, 0x54u8, 0x54u8, 0x50u8, 0x5fu8]
    }));
    t
}

/// Appends a row of six columns, fitted to the columns when `pretty`.
fn push_row(
    out: &mut Vec<u8>,
    f0: &Vec<u8>,
    f1: &Vec<u8>,
    f2: &Vec<u8>,
    f3: &Vec<u8>,
    f4: &Vec<u8>,
    f5: &Vec<u8>,
    pretty: bool,
)
    ensures
        final(out)@ == old(out)@ + row6(fit6(seq![f0@, f1@, f2@, f3@, f4@, f5@], pretty)),
{
    out.push(BAR);
    push_field(out, f0, DATE_WIDTH, pretty);
    push_field(out, f1, COUNT_WIDTH, pretty);
    push_field(out, f2, COUNT_WIDTH, pretty);
    push_field(out, f3, COUNT_WIDTH, pretty);
    push_field(out, f4, COUNT_WIDTH, pretty);
    push_field(out, f5, COUNT_WIDTH, pretty);
    assert(final(out)@ =~= old(out)@ + row6(fit6(seq![f0@, f1@, f2@, f3@, f4@, f5@], pretty)));
}

/// Appends the header row of the table.
fn push_header(out: &mut Vec<u8>, pretty: bool)
    ensures
        final(out)@ == old(out)@ + row6(header_fields(pretty)),
{
    let first: Vec<u8> = if pretty {
        vec![0x44u8, 0x61u8, 0x74u8, 0x65u8, 0x54u8, 0x69u8, 0x6du8, 0x65u8]
    } else {
        vec![0x64u8, 0x74u8]
    };
    let t1 = count_title(1, pretty);
    let t2 = count_title(2, pretty);
    let t3 = count_title(3, pretty);
    let t4 = count_title(4, pretty);
    let t5 = count_title(5, pretty);
    assert(first@ =~= first_title(pretty));
    push_row(out, &first, &t1, &t2, &t3, &t4, &t5, pretty);
    assert(seq![first@, t1@, t2@, t3@, t4@, t5@] =~= seq![
        first_title(pretty),
        count_title_spec(1, pretty),
        count_title_spec(2, pretty),
        count_title_spec(3, pretty),
        count_title_spec(4, pretty),
        count_title_spec(5, pretty),
    ]);
}

/// The decimal digits of `n`.
fn decimal_text(n: u64) -> (r: Vec<u8>)
    ensures
        r@ == decimal(n as nat),
{
    let mut t: Vec<u8> = Vec::new();
    push_decimal(&mut t, n);
    assert(t@ =~= decimal(n as nat));
    t
}

/// Appends the row of bucket `b`.
pub fn push_bucket_row(out: &mut Vec<u8>, b: &Counters, pretty: bool)
    requires
        b.moment <= LATEST_SECS,
    ensures
        final(out)@ == old(out)@ + bucket_row(*b, pretty),
{
    let stamp = timestamp_text(b.moment);
    let c1 = decimal_text(b.stats100);
    let c2 = decimal_text(b.stats200);
    let c3 = decimal_text(b.stats300);
    let c4 = decimal_text(b.stats400);
    let c5 = decimal_text(b.stats500);
    push_row(out, &stamp, &c1, &c2, &c3, &c4, &c5, pretty);
    assert(seq![stamp@, c1@, c2@, c3@, c4@, c5@] =~= bucket_texts(*b));
}

/// The table of `bs`, oldest bucket first: the plain table, or the pretty one with
/// centered columns.
pub fn render(bs: &Vec<Counters>, pretty: bool) -> (r: Vec<u8>)
    requires
        forall|i: int| 0 <= i < bs@.len() ==> #[trigger] bs@[i].moment <= LATEST_SECS,
    ensures
        r@ == rendered(bs@, pretty),
{
    let mut out: Vec<u8> = Vec::new();
    push_header(&mut out, pretty);
    out.push(NEWLINE);
    let ghost head = out@;
    let mut i: usize = 0;
    while i < bs.len()
        invariant
            i <= bs@.len(),
            forall|j: int| 0 <= j < bs@.len() ==> #[trigger] bs@[j].moment <= LATEST_SECS,
            out@ == head + bucket_lines(bs@.subrange(0, i as int), pretty),
        decreases bs@.len() - i,
    {
        let ghost before = out@;
        if i > 0 {
            out.push(NEWLINE);
        }
        push_bucket_row(&mut out, &bs[i], pretty);
        proof {
            let sub = bs@.subrange(0, i as int + 1);
            assert(sub.drop_last() =~= bs@.subrange(0, i as int));
            assert(sub.last() == bs@[i as int]);
            if i == 0 {
                assert(bucket_lines(bs@.subrange(0, 0), pretty) =~= seq![]);
            }
            assert(out@ =~= head + bucket_lines(sub, pretty));
        }
        i = i + 1;
    }
    assert(bs@.subrange(0, bs@.len() as int) =~= bs@);
    out.push(NEWLINE);
    assert(out@ =~= rendered(bs@, pretty));
    out
}

/// The pieces of `s` between the bytes `sep`, in order; a text without `sep` is one piece.
pub open spec fn split_on(s: Seq<u8>, sep: u8) -> Seq<Seq<u8>>
    decreases s.len(),
{
    if s.len() == 0 {
        seq![seq![]]
    } else {
        let prev = split_on(s.drop_last(), sep);
        if s.last() == sep {
            prev.push(seq![])
        } else {
            prev.update(prev.len() - 1, prev.last().push(s.last()))
        }
    }
}

/// The number that the decimal digits `s` spell, most significant first.
pub open spec fn parse_decimal(s: Seq<u8>) -> nat
    decreases s.len(),
{
    if s.len() == 0 {
        0
    } else {
        parse_decimal(s.drop_last()) * 10 + (s.last() - ZERO) as nat
    }
}

proof fn lemma_split_nonempty(s: Seq<u8>, sep: u8)
    ensures
        split_on(s, sep).len() >= 1,
    decreases s.len(),
{
    if s.len() > 0 {
        lemma_split_nonempty(s.drop_last(), sep);
    }
}

proof fn lemma_split_extend(x: Seq<u8>, y: Seq<u8>, sep: u8)
    requires
        !y.contains(sep),
    ensures
        split_on(x + y, sep) == split_on(x, sep).update(
            split_on(x, sep).len() - 1,
            split_on(x, sep).last() + y,
        ),
    decreases y.len(),
{
    lemma_split_nonempty(x, sep);
    let px = split_on(x, sep);
    if y.len() == 0 {
        assert(x + y =~= x);
        assert(px.last() + y =~= px.last());
        assert(px.update(px.len() - 1, px.last() + y) =~= px);
    } else {
        let y0 = y.drop_last();
        assert(!y0.contains(sep)) by {
            if y0.contains(sep) {
                let i = choose|i: int| 0 <= i < y0.len() && y0[i] == sep;
                assert(y[i] == sep);
            }
        }
        lemma_split_extend(x, y0, sep);
        assert((x + y).drop_last() =~= x + y0);
        assert((x + y).last() == y.last());
        assert(y.last() != sep) by {
            assert(y[y.len() - 1] == y.last());
        }
        let prev = split_on(x + y0, sep);
        assert(prev == px.update(px.len() - 1, px.last() + y0));
        assert(prev.len() == px.len());
        assert(prev.last() == px.last() + y0);
        assert(split_on(x + y, sep) == prev.update(prev.len() - 1, prev.last().push(y.last())));
        assert((px.last() + y0).push(y.last()) =~= px.last() + y);
        assert(split_on(x + y, sep) =~= px.update(px.len() - 1, px.last() + y));
    }
}

proof fn lemma_split_after_sep(x: Seq<u8>, y: Seq<u8>, sep: u8)
    requires
        !y.contains(sep),
    ensures
        split_on(x + seq![sep] + y, sep) == split_on(x, sep).push(y),
{
    let xs = x + seq![sep];
    assert(xs.drop_last() =~= x);
    assert(xs.last() == sep);
    lemma_split_extend(xs, y, sep);
    let p = split_on(x, sep).push(seq![]);
    assert(p.last() + y =~= y);
    assert(p.update(p.len() - 1, y) =~= split_on(x, sep).push(y));
}

proof fn lemma_decimal_round_trip(n: nat)
    ensures
        parse_decimal(decimal(n)) == n,
        !decimal(n).contains(BAR),
    decreases n,
{
    let d = decimal(n);
    if n < 10 {
        assert(d.drop_last() =~= seq![]);
        assert(d[0] == d.last());
        assert(parse_decimal(d) == parse_decimal(d.drop_last()) * 10 + (d.last() - ZERO) as nat);
    } else {
        lemma_decimal_round_trip(n / 10);
        assert(d.drop_last() =~= decimal(n / 10));
        assert(d.last() == (ZERO + n % 10) as u8);
        assert(parse_decimal(d) == parse_decimal(decimal(n / 10)) * 10 + n % 10);
        assert(n == (n / 10) * 10 + n % 10);
        assert(!d.contains(BAR)) by {
            if d.contains(BAR) {
                let i = choose|i: int| 0 <= i < d.len() && d[i] == BAR;
                if i < d.len() - 1 {
                    assert(decimal(n / 10)[i] == BAR);
                }
            }
        }
    }
}

/// Splitting a row of the plain table on `|` gives back the bucket's five counters:
/// they are the five pieces before the empty one that the closing `|` leaves.
pub proof fn lemma_row_round_trip(b: Counters)
    ensures
        ({
            let parts = split_on(bucket_row(b, false), BAR);
            &&& parts.len() >= 7
            &&& parts.last() == Seq::<u8>::empty()
            &&& forall|c: int| 0 <= c < 5 ==> parse_decimal(#[trigger] parts[parts.len() - 6 + c]) == b.counts()[c]
        }),
{
    let f = bucket_texts(b);
    assert(bucket_fields(b, false) == f);
    lemma_decimal_round_trip(b.stats100 as nat);
    lemma_decimal_round_trip(b.stats200 as nat);
    lemma_decimal_round_trip(b.stats300 as nat);
    lemma_decimal_round_trip(b.stats400 as nat);
    lemma_decimal_round_trip(b.stats500 as nat);
    let x = seq![BAR] + f[0];
    lemma_split_nonempty(x, BAR);
    let s1 = x + seq![BAR] + f[1];
    let s2 = s1 + seq![BAR] + f[2];
    let s3 = s2 + seq![BAR] + f[3];
    let s4 = s3 + seq![BAR] + f[4];
    let s5 = s4 + seq![BAR] + f[5];
    let e: Seq<u8> = seq![];
    assert(!e.contains(BAR));
    lemma_split_after_sep(x, f[1], BAR);
    lemma_split_after_sep(s1, f[2], BAR);
    lemma_split_after_sep(s2, f[3], BAR);
    lemma_split_after_sep(s3, f[4], BAR);
    lemma_split_after_sep(s4, f[5], BAR);
    lemma_split_after_sep(s5, e, BAR);
    assert(s5 + seq![BAR] + e =~= bucket_row(b, false));
    let px = split_on(x, BAR);
    let parts = split_on(bucket_row(b, false), BAR);
    assert(parts == px.push(f[1]).push(f[2]).push(f[3]).push(f[4]).push(f[5]).push(e));
    assert(parts.len() == px.len() + 6);
    assert(parts[parts.len() - 6] == f[1]);
    assert(parts[parts.len() - 5] == f[2]);
    assert(parts[parts.len() - 4] == f[3]);
    assert(parts[parts.len() - 3] == f[4]);
    assert(parts[parts.len() - 2] == f[5]);
}

} // verus!
