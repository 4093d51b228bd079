//! The CSV output: one row per cycle, no header, fields
//! `timestamp_us,rtt_us,status`, each row ended by a newline.
use vstd::prelude::*;
use crate::types::{Sample, Status, status_text};

verus! {

/// ASCII code of `0`.
pub const ZERO: u8 = 48;
/// ASCII code of `-`.
pub const MINUS: u8 = 45;
/// ASCII code of `,`.
pub const COMMA: u8 = 44;
/// ASCII code of the newline.
pub const NEWLINE: u8 = 10;

/// The decimal digits of `n`, most significant first, without leading zeros
/// (`0` is the single digit `0`).
pub open spec fn dec_digits(n: nat) -> Seq<u8>
    decreases n,
{
    if n < 10 {
        seq![(ZERO + n) as u8]
    } else {
        dec_digits(n / 10).push((ZERO + n % 10) as u8)
    }
}

/// The decimal text of a signed number: a leading `-` for negative values.
pub open spec fn dec_signed(v: int) -> Seq<u8> {
    if v < 0 {
        seq![MINUS] + dec_digits((-v) as nat)
    } else {
        dec_digits(v as nat)
    }
}

/// The ASCII bytes of a status's text.
pub open spec fn status_ascii(s: Status) -> Seq<u8> {
    match s {
        Status::Okay => seq![111u8, 107u8],
        Status::Timeout => seq![116u8, 105u8, 109u8, 101u8, 111u8, 117u8, 116u8],
        Status::SeqMismatch => seq![115u8, 101u8, 113u8, 95u8, 109u8, 105u8, 115u8, 109u8, 97u8, 116u8, 99u8, 104u8],
    }
}

/// The CSV row of one sample, newline included.
pub open spec fn csv_row(s: Sample) -> Seq<u8> {
    dec_digits(s.timestamp_us as nat) + seq![COMMA] + dec_signed(s.rtt_us as int) + seq![COMMA]
        + status_ascii(s.status) + seq![NEWLINE]
}

/// The CSV text of a sequence of samples: their rows in order.
pub open spec fn csv_text(samples: Seq<Sample>) -> Seq<u8>
    decreases samples.len(),
{
    if samples.len() == 0 {
        Seq::empty()
    } else {
        csv_text(samples.drop_last()) + csv_row(samples.last())
    }
}


/// Number of occurrences of byte `b` in `s`.
pub open spec fn count_byte(s: Seq<u8>, b: u8) -> nat
    decreases s.len(),
{
    if s.len() == 0 {
        0
    } else {
        count_byte(s.drop_last(), b) + if s.last() == b { 1nat } else { 0nat }
    }
}

/// The number that a run of ASCII decimal digits denotes.
pub open spec fn digits_value(s: Seq<u8>) -> nat
    decreases s.len(),
{
    if s.len() == 0 {
        0
    } else {
        digits_value(s.drop_last()) * 10 + (s.last() - ZERO) as nat
    }
}

/// Whether every byte of `s` is an ASCII decimal digit.
pub open spec fn all_digits(s: Seq<u8>) -> bool {
    forall|i: int| 0 <= i < s.len() ==> ZERO <= #[trigger] s[i] <= ZERO + 9
}

proof fn lemma_count_concat(a: Seq<u8>, c: Seq<u8>, b: u8)
    ensures
        count_byte(a + c, b) == count_byte(a, b) + count_byte(c, b),
    decreases c.len(),
{
    if c.len() == 0 {
        assert(a + c =~= a);
    } else {
        lemma_count_concat(a, c.drop_last(), b);
        assert((a + c).drop_last() =~= a + c.drop_last());
    }
}

proof fn lemma_count_single(x: u8, b: u8)
    ensures
        count_byte(seq![x], b) == if x == b { 1nat } else { 0nat },
{
    assert(seq![x].drop_last() =~= Seq::<u8>::empty());
    assert(count_byte(Seq::<u8>::empty(), b) == 0);
}

proof fn lemma_count_absent(s: Seq<u8>, b: u8)
    requires
        forall|i: int| 0 <= i < s.len() ==> s[i] != b,
    ensures
        count_byte(s, b) == 0,
    decreases s.len(),
{
    if s.len() > 0 {
        lemma_count_absent(s.drop_last(), b);
    }
}

/// The decimal digits of a number are non-empty ASCII digits.
pub proof fn lemma_dec_digits_are_digits(n: nat)
    ensures
        dec_digits(n).len() >= 1,
        all_digits(dec_digits(n)),
    decreases n,
{
    if n >= 10 {
        lemma_dec_digits_are_digits(n / 10);
    }
}

/// Reading the decimal digits of `n` back gives `n`: every numeric field of
/// the CSV holds its value exactly.
pub proof fn lemma_dec_roundtrip(n: nat)
    ensures
        digits_value(dec_digits(n)) == n,
    decreases n,
{
    let d = dec_digits(n);
    if n >= 10 {
        lemma_dec_roundtrip(n / 10);
        assert(d.drop_last() =~= dec_digits(n / 10));
        assert(d.last() == (ZERO + n % 10) as u8);
        assert((n / 10) * 10 + n % 10 == n) by (nonlinear_arith);
    } else {
        assert(d.drop_last() =~= Seq::<u8>::empty());
        assert(digits_value(Seq::<u8>::empty()) == 0);
    }
}

/// The status field of a row is the status's `as_str` text, byte for byte.
pub proof fn lemma_status_ascii_is_text(s: Status)
    ensures
        status_ascii(s).len() == status_text(s).len(),
        forall|i: int| 0 <= i < status_ascii(s).len() ==> #[trigger] status_ascii(s)[i] == status_text(s)[i] as u8,
{
}

/// A row holds exactly one newline (its last byte) and exactly two commas,
/// so it splits into three fields.
pub proof fn lemma_row_shape(s: Sample)
    ensures
        count_byte(csv_row(s), NEWLINE) == 1,
        count_byte(csv_row(s), COMMA) == 2,
        csv_row(s).last() == NEWLINE,
{
    let ts = dec_digits(s.timestamp_us as nat);
    let rtt = dec_signed(s.rtt_us as int);
    let st = status_ascii(s.status);
    lemma_dec_digits_are_digits(s.timestamp_us as nat);
    if s.rtt_us < 0 {
        lemma_dec_digits_are_digits((-s.rtt_us) as nat);
        let m = dec_digits((-s.rtt_us) as nat);
        assert forall|i: int| 0 <= i < rtt.len() implies rtt[i] != NEWLINE && rtt[i] != COMMA by {
            if i > 0 {
                assert(rtt[i] == m[i - 1]);
            }
        }
    } else {
        lemma_dec_digits_are_digits(s.rtt_us as nat);
    }
    assert(forall|i: int| 0 <= i < ts.len() ==> ts[i] != NEWLINE && ts[i] != COMMA);
    assert(forall|i: int| 0 <= i < st.len() ==> st[i] != NEWLINE && st[i] != COMMA);
    lemma_count_absent(ts, NEWLINE);
    lemma_count_absent(ts, COMMA);
    lemma_count_absent(rtt, NEWLINE);
    lemma_count_absent(rtt, COMMA);
    lemma_count_absent(st, NEWLINE);
    lemma_count_absent(st, COMMA);
    let c = seq![COMMA];
    let nl = seq![NEWLINE];
    lemma_count_single(COMMA, COMMA);
    lemma_count_single(COMMA, NEWLINE);
    lemma_count_single(NEWLINE, NEWLINE);
    lemma_count_single(NEWLINE, COMMA);
    lemma_count_concat(ts, c, NEWLINE);
    lemma_count_concat(ts, c, COMMA);
    lemma_count_concat(ts + c, rtt, NEWLINE);
    lemma_count_concat(ts + c, rtt, COMMA);
    lemma_count_concat(ts + c + rtt, c, NEWLINE);
    lemma_count_concat(ts + c + rtt, c, COMMA);
    lemma_count_concat(ts + c + rtt + c, st, NEWLINE);
    lemma_count_concat(ts + c + rtt + c, st, COMMA);
    lemma_count_concat(ts + c + rtt + c + st, nl, NEWLINE);
    lemma_count_concat(ts + c + rtt + c + st, nl, COMMA);
}

/// The CSV text of `n` samples has exactly `n` lines (newlines) and `2 * n`
/// commas: one row of three fields per cycle.
pub proof fn lemma_csv_rows(samples: Seq<Sample>)
    ensures
        count_byte(csv_text(samples), NEWLINE) == samples.len(),
        count_byte(csv_text(samples), COMMA) == 2 * samples.len(),
    decreases samples.len(),
{
    if samples.len() > 0 {
        lemma_csv_rows(samples.drop_last());
        lemma_row_shape(samples.last());
        lemma_count_concat(csv_text(samples.drop_last()), csv_row(samples.last()), NEWLINE);
        lemma_count_concat(csv_text(samples.drop_last()), csv_row(samples.last()), COMMA);
    } else {
        assert(csv_text(samples) =~= Seq::<u8>::empty());
    }
}


/// The pieces of `s` between occurrences of the byte `b`, in order; the
/// piece after the last `b` is kept, even when empty.
pub open spec fn split_on(s: Seq<u8>, b: u8) -> Seq<Seq<u8>>
    decreases s.len(),
{
    if s.len() == 0 {
        seq![Seq::<u8>::empty()]
    } else {
        let rest = split_on(s.drop_first(), b);
        if s[0] == b {
            seq![Seq::<u8>::empty()] + rest
        } else {
            rest.update(0, seq![s[0]] + rest[0])
        }
    }
}

/// The lines of a text: the pieces ended by a newline (the piece after the
/// last newline, empty for a CSV file, is not a line).
pub open spec fn lines_of(text: Seq<u8>) -> Seq<Seq<u8>> {
    split_on(text, NEWLINE).drop_last()
}

/// An unsigned decimal field: one or more ASCII digits.
pub open spec fn parse_unsigned(f: Seq<u8>) -> Option<nat> {
    if f.len() > 0 && all_digits(f) {
        Some(digits_value(f))
    } else {
        None
    }
}

/// A signed decimal field: digits with an optional leading `-`.
pub open spec fn parse_signed(f: Seq<u8>) -> Option<int> {
    if f.len() > 0 && f[0] == MINUS {
        match parse_unsigned(f.drop_first()) {
            Some(v) => Some(-v),
            None => None,
        }
    } else {
        match parse_unsigned(f) {
            Some(v) => Some(v as int),
            None => None,
        }
    }
}

/// The row of a sample without its newline.
pub open spec fn row_body(s: Sample) -> Seq<u8> {
    dec_digits(s.timestamp_us as nat) + seq![COMMA] + dec_signed(s.rtt_us as int) + seq![COMMA]
        + status_ascii(s.status)
}

proof fn lemma_split_len(s: Seq<u8>, b: u8)
    ensures
        split_on(s, b).len() >= 1,
    decreases s.len(),
{
    if s.len() > 0 {
        lemma_split_len(s.drop_first(), b);
    }
}

proof fn lemma_split_without_sep(x: Seq<u8>, b: u8)
    requires
        forall|i: int| 0 <= i < x.len() ==> x[i] != b,
    ensures
        split_on(x, b) =~~= seq![x],
    decreases x.len(),
{
    if x.len() > 0 {
        lemma_split_without_sep(x.drop_first(), b);
        assert(seq![x[0]] + x.drop_first() =~= x);
    } else {
        assert(x =~= Seq::<u8>::empty());
    }
}

proof fn lemma_split_after_piece(x: Seq<u8>, b: u8, rest: Seq<u8>)
    requires
        forall|i: int| 0 <= i < x.len() ==> x[i] != b,
    ensures
        split_on(x + seq![b] + rest, b) =~~= seq![x] + split_on(rest, b),
    decreases x.len(),
{
    let s = x + seq![b] + rest;
    lemma_split_len(rest, b);
    if x.len() == 0 {
        assert(s.drop_first() =~= rest);
        assert(x =~= Seq::<u8>::empty());
    } else {
        let x1 = x.drop_first();
        assert(s.drop_first() =~= x1 + seq![b] + rest);
        lemma_split_after_piece(x1, b, rest);
        assert(seq![x[0]] + x1 =~= x);
    }
}

proof fn lemma_csv_text_front(samples: Seq<Sample>)
    requires
        samples.len() > 0,
    ensures
        csv_text(samples) =~= csv_row(samples[0]) + csv_text(samples.drop_first()),
    decreases samples.len(),
{
    if samples.len() == 1 {
        assert(samples.drop_last() =~= Seq::<Sample>::empty());
        assert(samples.drop_first() =~= Seq::<Sample>::empty());
    } else {
        lemma_csv_text_front(samples.drop_last());
        assert(samples.drop_last().drop_first() =~= samples.drop_first().drop_last());
        assert(samples.drop_first().last() == samples.last());
    }
}

proof fn lemma_body_bytes(s: Sample)
    ensures
        forall|i: int| 0 <= i < row_body(s).len() ==> row_body(s)[i] != NEWLINE,
        csv_row(s) =~= row_body(s) + seq![NEWLINE],
{
    lemma_dec_digits_are_digits(s.timestamp_us as nat);
    if s.rtt_us < 0 {
        lemma_dec_digits_are_digits((-s.rtt_us) as nat);
    } else {
        lemma_dec_digits_are_digits(s.rtt_us as nat);
    }
}

proof fn lemma_csv_split(samples: Seq<Sample>)
    ensures
        split_on(csv_text(samples), NEWLINE) =~~= samples.map_values(|x: Sample| row_body(x)) + seq![
            Seq::<u8>::empty(),
        ],
    decreases samples.len(),
{
    if samples.len() == 0 {
        assert(csv_text(samples) =~= Seq::<u8>::empty());
    } else {
        lemma_csv_text_front(samples);
        lemma_csv_split(samples.drop_first());
        lemma_body_bytes(samples[0]);
        lemma_split_after_piece(row_body(samples[0]), NEWLINE, csv_text(samples.drop_first()));
        assert(csv_text(samples) =~= row_body(samples[0]) + seq![NEWLINE] + csv_text(samples.drop_first()));
    }
}

proof fn lemma_row_fields(s: Sample)
    ensures
        split_on(row_body(s), COMMA) =~~= seq![
            dec_digits(s.timestamp_us as nat),
            dec_signed(s.rtt_us as int),
            status_ascii(s.status),
        ],
        parse_unsigned(dec_digits(s.timestamp_us as nat)) == Some(s.timestamp_us as nat),
        parse_signed(dec_signed(s.rtt_us as int)) == Some(s.rtt_us as int),
{
    let ts = dec_digits(s.timestamp_us as nat);
    let rtt = dec_signed(s.rtt_us as int);
    let st = status_ascii(s.status);
    lemma_dec_digits_are_digits(s.timestamp_us as nat);
    lemma_dec_roundtrip(s.timestamp_us as nat);
    if s.rtt_us < 0 {
        let m = dec_digits((-s.rtt_us) as nat);
        lemma_dec_digits_are_digits((-s.rtt_us) as nat);
        lemma_dec_roundtrip((-s.rtt_us) as nat);
        assert(rtt.drop_first() =~= m);
        assert forall|i: int| 0 <= i < rtt.len() implies rtt[i] != COMMA by {
            if i > 0 {
                assert(rtt[i] == m[i - 1]);
            }
        }
    } else {
        lemma_dec_digits_are_digits(s.rtt_us as nat);
        lemma_dec_roundtrip(s.rtt_us as nat);
        assert(rtt[0] != MINUS);
    }
    assert(forall|i: int| 0 <= i < ts.len() ==> ts[i] != COMMA);
    assert(forall|i: int| 0 <= i < st.len() ==> st[i] != COMMA);
    lemma_split_without_sep(st, COMMA);
    lemma_split_after_piece(rtt, COMMA, st);
    lemma_split_after_piece(ts, COMMA, rtt + seq![COMMA] + st);
    assert(row_body(s) =~= ts + seq![COMMA] + (rtt + seq![COMMA] + st));
}

/// Splitting the CSV text of `samples` into lines, and each line at its
/// commas, gives one line per sample with exactly three fields that read
/// back as the sample's timestamp, round-trip time and status text: the CSV
/// holds every value exactly.
pub proof fn lemma_csv_parses_back(samples: Seq<Sample>)
    ensures
        lines_of(csv_text(samples)).len() == samples.len(),
        forall|i: int|
            0 <= i < samples.len() ==> {
                let f = split_on(#[trigger] lines_of(csv_text(samples))[i], COMMA);
                &&& f.len() == 3
                &&& parse_unsigned(f[0]) == Some(samples[i].timestamp_us as nat)
                &&& parse_signed(f[1]) == Some(samples[i].rtt_us as int)
                &&& f[2] == status_ascii(samples[i].status)
            },
{
    lemma_csv_split(samples);
    let lines = lines_of(csv_text(samples));
    assert(lines =~~= samples.map_values(|x: Sample| row_body(x)));
    assert forall|i: int| 0 <= i < samples.len() implies {
        let f = split_on(#[trigger] lines_of(csv_text(samples))[i], COMMA);
        &&& f.len() == 3
        &&& parse_unsigned(f[0]) == Some(samples[i].timestamp_us as nat)
        &&& parse_signed(f[1]) == Some(samples[i].rtt_us as int)
        &&& f[2] == status_ascii(samples[i].status)
    } by {
        assert(lines[i] == row_body(samples[i]));
        lemma_row_fields(samples[i]);
    }
}

/// Appends the decimal digits of `n`.
pub fn push_decimal(out: &mut Vec<u8>, n: u64)
    ensures
        final(out)@ == old(out)@ + dec_digits(n as nat),
    decreases n,
{
    if n >= 10 {
        push_decimal(out, n / 10);
    }
    let d: u8 = (n % 10) as u8;
    out.push(ZERO + d);
    assert(out@ =~= old(out)@ + dec_digits(n as nat));
}

/// Appends the decimal text of `v`, with a leading `-` when negative.
pub fn push_signed(out: &mut Vec<u8>, v: i64)
    ensures
        final(out)@ == old(out)@ + dec_signed(v as int),
{
    if v < 0 {
        out.push(MINUS);
        let wide: i128 = v as i128;
        let magnitude: u64 = (0i128 - wide) as u64;
        push_decimal(out, magnitude);
        assert(out@ =~= old(out)@ + dec_signed(v as int));
    } else {
        push_decimal(out, v as u64);
    }
}

/// Appends the ASCII text of a status.
pub fn push_status(out: &mut Vec<u8>, s: Status)
    ensures
        final(out)@ == old(out)@ + status_ascii(s),
{
    match s {
        Status::Okay => {
            out.push(111u8);
            out.push(107u8);
        },
        Status::Timeout => {
            out.push(116u8);
            out.push(105u8);
            out.push(109u8);
            out.push(101u8);
            out.push(111u8);
            out.push(117u8);
            out.push(116u8);
        },
        Status::SeqMismatch => {
            out.push(115u8);
            out.push(101u8);
            out.push(113u8);
            out.push(95u8);
            out.push(109u8);
            out.push(105u8);
            out.push(115u8);
            out.push(109u8);
            out.push(97u8);
            out.push(116u8);
            out.push(99u8);
            out.push(104u8);
        },
    }
    assert(out@ =~= old(out)@ + status_ascii(s));
}

/// Appends the CSV row of one sample.
pub fn push_row(out: &mut Vec<u8>, s: &Sample)
    ensures
        final(out)@ == old(out)@ + csv_row(*s),
{
    push_decimal(out, s.timestamp_us);
    out.push(COMMA);
    push_signed(out, s.rtt_us);
    out.push(COMMA);
    push_status(out, s.status);
    out.push(NEWLINE);
    assert(out@ =~= old(out)@ + csv_row(*s));
}

/// The CSV file content for `samples`: one row per sample, in order.
pub fn encode_csv(samples: &Vec<Sample>) -> (out: Vec<u8>)
    ensures
        out@ == csv_text(samples@),
{
    let mut out: Vec<u8> = Vec::new();
    let mut i: usize = 0;
    while i < samples.len()
        invariant
            i <= samples@.len(),
            out@ == csv_text(samples@.subrange(0, i as int)),
        decreases samples@.len() - i,
    {
        push_row(&mut out, &samples[i]);
        assert(samples@.subrange(0, i + 1).drop_last() =~= samples@.subrange(0, i as int));
        i = i + 1;
    }
    assert(samples@.subrange(0, i as int) =~= samples@);
    out
}

} // verus!
