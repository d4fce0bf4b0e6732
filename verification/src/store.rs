//! The record store: generic persistence for a named collection.
//!
//! A collection is a sequence of records; a record is a sequence of named
//! fields, each holding text or a number. The textual format is
//! self-describing and round-trip faithful:
//!
//! - a number is its decimal digits terminated by `;`
//! - a text is its character count, `:`, then exactly that many characters
//! - a field is its name (as a text), `=`, then `t` and a text or `n` and a
//!   number, terminated by a space
//! - a record is its field count terminated by `;`, then its fields
//! - a file is its record count terminated by `;`, then its records
//!
//! `save_records` produces exactly `ser_file` of the records' view, and
//! `load_records` recovers exactly what `parse_file` describes; the law
//! `lemma_save_load_round_trip` proves that a saved file always loads back
//! to an equal record sequence.

use vstd::prelude::*;

use crate::text::{char_digit, digit_char, digit_val, digits_of, is_digit, lemma_digits_of_wf,
    u64_to_string};

verus! {

pub ghost enum ValueV {
    Text(Seq<char>),
    Number(u64),
}

pub ghost struct FieldV {
    pub name: Seq<char>,
    pub value: ValueV,
}

pub enum FieldValue {
    Text(String),
    Number(u64),
}

pub struct Field {
    pub name: String,
    pub value: FieldValue,
}

impl View for FieldValue {
    type V = ValueV;

    open spec fn view(&self) -> ValueV {
        match self {
            FieldValue::Text(s) => ValueV::Text(s@),
            FieldValue::Number(n) => ValueV::Number(*n),
        }
    }
}

impl View for Field {
    type V = FieldV;

    open spec fn view(&self) -> FieldV {
        FieldV { name: self.name@, value: self.value@ }
    }
}

/// The view of one record's fields.
pub open spec fn fields_view(fs: Seq<Field>) -> Seq<FieldV> {
    fs.map_values(|f: Field| f@)
}

/// The view of a whole collection.
pub open spec fn records_view(rs: Seq<Vec<Field>>) -> Seq<Seq<FieldV>> {
    rs.map_values(|r: Vec<Field>| fields_view(r@))
}

pub open spec fn ser_num(n: nat) -> Seq<char> {
    digits_of(n).push(';')
}

pub open spec fn ser_text(t: Seq<char>) -> Seq<char> {
    digits_of(t.len()).push(':') + t
}

pub open spec fn ser_value(v: ValueV) -> Seq<char> {
    match v {
        ValueV::Text(t) => seq!['t'] + ser_text(t),
        ValueV::Number(n) => seq!['n'] + ser_num(n as nat),
    }
}

pub open spec fn ser_field(f: FieldV) -> Seq<char> {
    ser_text(f.name) + seq!['='] + ser_value(f.value) + seq![' ']
}

pub open spec fn ser_fields(fs: Seq<FieldV>) -> Seq<char>
    decreases fs.len(),
{
    if fs.len() == 0 {
        Seq::empty()
    } else {
        ser_field(fs[0]) + ser_fields(fs.drop_first())
    }
}

pub open spec fn ser_record(fs: Seq<FieldV>) -> Seq<char> {
    ser_num(fs.len()) + ser_fields(fs)
}

pub open spec fn ser_records(rs: Seq<Seq<FieldV>>) -> Seq<char>
    decreases rs.len(),
{
    if rs.len() == 0 {
        Seq::empty()
    } else {
        ser_record(rs[0]) + ser_records(rs.drop_first())
    }
}

/// The full serialized file for a collection.
pub open spec fn ser_file(rs: Seq<Seq<FieldV>>) -> Seq<char> {
    ser_num(rs.len()) + ser_records(rs)
}

/// Greedily consume decimal digits, extending `acc`.
pub open spec fn parse_digits(s: Seq<char>, acc: nat) -> (nat, Seq<char>)
    decreases s.len(),
{
    if s.len() > 0 && is_digit(s[0]) {
        parse_digits(s.drop_first(), (acc * 10 + digit_val(s[0])) as nat)
    } else {
        (acc, s)
    }
}

/// A digit run terminated by `term`, whose value must be machine
/// representable.
pub open spec fn parse_len(s: Seq<char>, term: char) -> Option<(nat, Seq<char>)> {
    if s.len() > 0 && is_digit(s[0]) {
        let (n, r) = parse_digits(s, 0);
        if n <= u64::MAX && r.len() > 0 && r[0] == term {
            Some((n, r.drop_first()))
        } else {
            None
        }
    } else {
        None
    }
}

pub open spec fn parse_text(s: Seq<char>) -> Option<(Seq<char>, Seq<char>)> {
    match parse_len(s, ':') {
        Some((n, r)) => if r.len() >= n {
            Some((r.take(n as int), r.skip(n as int)))
        } else {
            None
        },
        None => None,
    }
}

pub open spec fn parse_value(s: Seq<char>) -> Option<(ValueV, Seq<char>)> {
    if s.len() == 0 {
        None
    } else if s[0] == 't' {
        match parse_text(s.drop_first()) {
            Some((t, r)) => Some((ValueV::Text(t), r)),
            None => None,
        }
    } else if s[0] == 'n' {
        match parse_len(s.drop_first(), ';') {
            Some((n, r)) => Some((ValueV::Number(n as u64), r)),
            None => None,
        }
    } else {
        None
    }
}

pub open spec fn parse_field(s: Seq<char>) -> Option<(FieldV, Seq<char>)> {
    match parse_text(s) {
        Some((name, r1)) => if r1.len() > 0 && r1[0] == '=' {
            match parse_value(r1.drop_first()) {
                Some((v, r2)) => if r2.len() > 0 && r2[0] == ' ' {
                    Some((FieldV { name, value: v }, r2.drop_first()))
                } else {
                    None
                },
                None => None,
            }
        } else {
            None
        },
        None => None,
    }
}

pub open spec fn parse_fields(s: Seq<char>, count: nat) -> Option<(Seq<FieldV>, Seq<char>)>
    decreases count,
{
    if count == 0 {
        Some((Seq::empty(), s))
    } else {
        match parse_field(s) {
            Some((f, r)) => match parse_fields(r, (count - 1) as nat) {
                Some((fs, r2)) => Some((seq![f] + fs, r2)),
                None => None,
            },
            None => None,
        }
    }
}

pub open spec fn parse_record(s: Seq<char>) -> Option<(Seq<FieldV>, Seq<char>)> {
    match parse_len(s, ';') {
        Some((count, r)) => parse_fields(r, count),
        None => None,
    }
}

pub open spec fn parse_records(s: Seq<char>, count: nat) -> Option<(Seq<Seq<FieldV>>, Seq<char>)>
    decreases count,
{
    if count == 0 {
        Some((Seq::empty(), s))
    } else {
        match parse_record(s) {
            Some((fs, r)) => match parse_records(r, (count - 1) as nat) {
                Some((rs, r2)) => Some((seq![fs] + rs, r2)),
                None => None,
            },
            None => None,
        }
    }
}

/// What a whole file means: a record count, that many records, nothing left.
pub open spec fn parse_file(s: Seq<char>) -> Option<Seq<Seq<FieldV>>> {
    match parse_len(s, ';') {
        Some((count, r)) => match parse_records(r, count) {
            Some((rs, r2)) => if r2.len() == 0 {
                Some(rs)
            } else {
                None
            },
            None => None,
        },
        None => None,
    }
}

/// Every count and text length in the collection is machine representable;
/// true of any collection that exists in memory.
pub open spec fn wf_file(rs: Seq<Seq<FieldV>>) -> bool {
    &&& rs.len() <= u64::MAX
    &&& forall|i: int| 0 <= i < rs.len() ==> wf_record(#[trigger] rs[i])
}

pub open spec fn wf_record(fs: Seq<FieldV>) -> bool {
    &&& fs.len() <= u64::MAX
    &&& forall|i: int| 0 <= i < fs.len() ==> wf_field(#[trigger] fs[i])
}

pub open spec fn wf_field(f: FieldV) -> bool {
    &&& f.name.len() <= u64::MAX
    &&& match f.value {
        ValueV::Text(t) => t.len() <= u64::MAX,
        ValueV::Number(_) => true,
    }
}

/// The value of digits already consumed, extended by the digits of `n`.
spec fn combine(acc: nat, n: nat) -> nat
    decreases n,
{
    if n < 10 {
        acc * 10 + n
    } else {
        combine(acc, n / 10) * 10 + n % 10
    }
}

proof fn lemma_parse_digits_of(n: nat, rest: Seq<char>, acc: nat)
    ensures
        parse_digits(digits_of(n) + rest, acc) == parse_digits(rest, combine(acc, n)),
    decreases n,
{
    lemma_digits_of_wf(n);
    if n < 10 {
        let s = digits_of(n) + rest;
        assert(s[0] == digit_char(n as int));
        assert(digit_val(digit_char(n as int)) == n);
        assert(s.drop_first() =~= rest);
    } else {
        let d = digit_char((n % 10) as int);
        assert(digit_val(d) == n % 10);
        assert(digits_of(n) =~= digits_of(n / 10) + seq![d]);
        assert((digits_of(n / 10) + seq![d]) + rest =~= digits_of(n / 10) + (seq![d] + rest));
        lemma_parse_digits_of(n / 10, seq![d] + rest, acc);
        let m = combine(acc, n / 10);
        let s2 = seq![d] + rest;
        assert(s2[0] == d);
        assert(s2.drop_first() =~= rest);
        assert(parse_digits(s2, m) == parse_digits(rest, (m * 10 + digit_val(d)) as nat));
    }
}

proof fn lemma_combine_zero(n: nat)
    ensures
        combine(0, n) == n,
    decreases n,
{
    if n >= 10 {
        lemma_combine_zero(n / 10);
    }
}

proof fn lemma_parse_len_of(n: nat, term: char, rest: Seq<char>)
    requires
        n <= u64::MAX,
        !is_digit(term),
    ensures
        parse_len(digits_of(n).push(term) + rest, term) == Some((n, rest)),
{
    lemma_digits_of_wf(n);
    let s = digits_of(n).push(term) + rest;
    let r0 = seq![term] + rest;
    assert(s =~= digits_of(n) + r0);
    lemma_parse_digits_of(n, r0, 0);
    lemma_combine_zero(n);
    assert(s[0] == digits_of(n)[0]);
    assert(r0[0] == term);
    assert(parse_digits(r0, n) == (n, r0));
    assert(r0.drop_first() =~= rest);
}

proof fn lemma_parse_text_of(t: Seq<char>, rest: Seq<char>)
    requires
        t.len() <= u64::MAX,
    ensures
        parse_text(ser_text(t) + rest) == Some((t, rest)),
{
    let s = ser_text(t) + rest;
    assert(s =~= digits_of(t.len()).push(':') + (t + rest));
    lemma_parse_len_of(t.len(), ':', t + rest);
    let r = t + rest;
    assert(r.len() >= t.len());
    assert(r.take(t.len() as int) =~= t);
    assert(r.skip(t.len() as int) =~= rest);
}

proof fn lemma_parse_value_of(v: ValueV, rest: Seq<char>)
    requires
        match v {
            ValueV::Text(t) => t.len() <= u64::MAX,
            ValueV::Number(_) => true,
        },
    ensures
        parse_value(ser_value(v) + rest) == Some((v, rest)),
{
    let s = ser_value(v) + rest;
    match v {
        ValueV::Text(t) => {
            assert(s =~= seq!['t'] + (ser_text(t) + rest));
            assert(s[0] == 't');
            assert(s.drop_first() =~= ser_text(t) + rest);
            lemma_parse_text_of(t, rest);
        },
        ValueV::Number(n) => {
            assert(s =~= seq!['n'] + (digits_of(n as nat).push(';') + rest));
            assert(s[0] == 'n');
            assert(s.drop_first() =~= digits_of(n as nat).push(';') + rest);
            lemma_parse_len_of(n as nat, ';', rest);
        },
    }
}

proof fn lemma_parse_field_of(f: FieldV, rest: Seq<char>)
    requires
        wf_field(f),
    ensures
        parse_field(ser_field(f) + rest) == Some((f, rest)),
{
    let s = ser_field(f) + rest;
    let r1 = seq!['='] + (ser_value(f.value) + (seq![' '] + rest));
    assert(s =~= ser_text(f.name) + r1);
    lemma_parse_text_of(f.name, r1);
    assert(r1[0] == '=');
    assert(r1.drop_first() =~= ser_value(f.value) + (seq![' '] + rest));
    lemma_parse_value_of(f.value, seq![' '] + rest);
    let r2 = seq![' '] + rest;
    assert(r2[0] == ' ');
    assert(r2.drop_first() =~= rest);
}

proof fn lemma_parse_fields_of(fs: Seq<FieldV>, rest: Seq<char>)
    requires
        forall|i: int| 0 <= i < fs.len() ==> wf_field(#[trigger] fs[i]),
    ensures
        parse_fields(ser_fields(fs) + rest, fs.len()) == Some((fs, rest)),
    decreases fs.len(),
{
    if fs.len() == 0 {
        assert(ser_fields(fs) + rest =~= rest);
        assert(fs =~= Seq::<FieldV>::empty());
    } else {
        let tail = fs.drop_first();
        assert(ser_fields(fs) + rest =~= ser_field(fs[0]) + (ser_fields(tail) + rest));
        assert(wf_field(fs[0]));
        lemma_parse_field_of(fs[0], ser_fields(tail) + rest);
        assert(forall|i: int| 0 <= i < tail.len() ==> wf_field(#[trigger] tail[i]));
        lemma_parse_fields_of(tail, rest);
        assert(seq![fs[0]] + tail =~= fs);
    }
}

proof fn lemma_parse_record_of(fs: Seq<FieldV>, rest: Seq<char>)
    requires
        wf_record(fs),
    ensures
        parse_record(ser_record(fs) + rest) == Some((fs, rest)),
{
    assert(ser_record(fs) + rest =~= digits_of(fs.len()).push(';') + (ser_fields(fs) + rest));
    lemma_parse_len_of(fs.len(), ';', ser_fields(fs) + rest);
    lemma_parse_fields_of(fs, rest);
}

proof fn lemma_parse_records_of(rs: Seq<Seq<FieldV>>, rest: Seq<char>)
    requires
        forall|i: int| 0 <= i < rs.len() ==> wf_record(#[trigger] rs[i]),
    ensures
        parse_records(ser_records(rs) + rest, rs.len()) == Some((rs, rest)),
    decreases rs.len(),
{
    if rs.len() == 0 {
        assert(ser_records(rs) + rest =~= rest);
        assert(rs =~= Seq::<Seq<FieldV>>::empty());
    } else {
        let tail = rs.drop_first();
        assert(ser_records(rs) + rest =~= ser_record(rs[0]) + (ser_records(tail) + rest));
        assert(wf_record(rs[0]));
        lemma_parse_record_of(rs[0], ser_records(tail) + rest);
        assert(forall|i: int| 0 <= i < tail.len() ==> wf_record(#[trigger] tail[i]));
        lemma_parse_records_of(tail, rest);
        assert(seq![rs[0]] + tail =~= rs);
    }
}

fn write_num(out: &mut String, n: u64)
    ensures
        final(out)@ == old(out)@ + ser_num(n as nat),
{
    let ds = u64_to_string(n);
    out.append(ds.as_str());
    out.append(";");
    proof {
        reveal_strlit(";");
        assert((old(out)@ + digits_of(n as nat)) + ";"@ =~= old(out)@ + ser_num(n as nat));
    }
}

fn write_text(out: &mut String, t: &String)
    ensures
        final(out)@ == old(out)@ + ser_text(t@),
        t@.len() <= u64::MAX,
{
    let chars = t.as_str().unicode_len();
    let ds = u64_to_string(chars as u64);
    out.append(ds.as_str());
    out.append(":");
    out.append(t.as_str());
    proof {
        reveal_strlit(":");
        assert(((old(out)@ + digits_of(t@.len())) + ":"@) + t@
            =~= old(out)@ + ser_text(t@));
    }
}

fn write_value(out: &mut String, v: &FieldValue)
    ensures
        final(out)@ == old(out)@ + ser_value(v@),
        wf_field(FieldV { name: Seq::empty(), value: v@ }),
{
    match v {
        FieldValue::Text(t) => {
            out.append("t");
            write_text(out, t);
            proof {
                reveal_strlit("t");
                assert((old(out)@ + "t"@) + ser_text(t@) =~= old(out)@ + ser_value(v@));
            }
        },
        FieldValue::Number(n) => {
            out.append("n");
            write_num(out, *n);
            proof {
                reveal_strlit("n");
                assert((old(out)@ + "n"@) + ser_num(*n as nat) =~= old(out)@ + ser_value(v@));
            }
        },
    }
}

fn write_field(out: &mut String, f: &Field)
    ensures
        final(out)@ == old(out)@ + ser_field(f@),
        wf_field(f@),
{
    write_text(out, &f.name);
    out.append("=");
    write_value(out, &f.value);
    out.append(" ");
    proof {
        reveal_strlit("=");
        reveal_strlit(" ");
        assert("="@ =~= seq!['=']);
        assert(" "@ =~= seq![' ']);
        assert((((old(out)@ + ser_text(f@.name)) + seq!['=']) + ser_value(f@.value)) + seq![' ']
            =~= old(out)@ + ser_field(f@));
    }
}

proof fn lemma_ser_fields_snoc(fs: Seq<FieldV>, f: FieldV)
    ensures
        ser_fields(fs.push(f)) == ser_fields(fs) + ser_field(f),
    decreases fs.len(),
{
    let p = fs.push(f);
    if fs.len() == 0 {
        assert(p.drop_first() =~= Seq::<FieldV>::empty());
        assert(ser_field(p[0]) + ser_fields(p.drop_first()) =~= ser_field(f));
        assert(ser_fields(fs) + ser_field(f) =~= ser_field(f));
    } else {
        assert(p[0] == fs[0]);
        assert(p.drop_first() =~= fs.drop_first().push(f));
        lemma_ser_fields_snoc(fs.drop_first(), f);
        assert(ser_field(fs[0]) + (ser_fields(fs.drop_first()) + ser_field(f))
            =~= (ser_field(fs[0]) + ser_fields(fs.drop_first())) + ser_field(f));
    }
}

proof fn lemma_ser_records_snoc(rs: Seq<Seq<FieldV>>, fs: Seq<FieldV>)
    ensures
        ser_records(rs.push(fs)) == ser_records(rs) + ser_record(fs),
    decreases rs.len(),
{
    let p = rs.push(fs);
    if rs.len() == 0 {
        assert(p.drop_first() =~= Seq::<Seq<FieldV>>::empty());
        assert(ser_record(p[0]) + ser_records(p.drop_first()) =~= ser_record(fs));
        assert(ser_records(rs) + ser_record(fs) =~= ser_record(fs));
    } else {
        assert(p[0] == rs[0]);
        assert(p.drop_first() =~= rs.drop_first().push(fs));
        lemma_ser_records_snoc(rs.drop_first(), fs);
        assert(ser_record(rs[0]) + (ser_records(rs.drop_first()) + ser_record(fs))
            =~= (ser_record(rs[0]) + ser_records(rs.drop_first())) + ser_record(fs));
    }
}

fn write_record(out: &mut String, rec: &Vec<Field>)
    ensures
        final(out)@ == old(out)@ + ser_record(fields_view(rec@)),
        wf_record(fields_view(rec@)),
{
    write_num(out, rec.len() as u64);
    let mut i: usize = 0;
    proof {
        assert(fields_view(rec@).take(0) =~= Seq::<FieldV>::empty());
        assert(ser_fields(Seq::<FieldV>::empty()) =~= Seq::<char>::empty());
        assert(out@ =~= old(out)@ + ser_num(rec@.len())
            + ser_fields(fields_view(rec@).take(0)));
    }
    while i < rec.len()
        invariant
            i <= rec@.len(),
            out@ == old(out)@ + ser_num(rec@.len()) + ser_fields(fields_view(rec@).take(i as int)),
            forall|j: int| 0 <= j < i ==> wf_field(#[trigger] fields_view(rec@)[j]),
        decreases rec@.len() - i,
    {
        write_field(out, &rec[i]);
        i = i + 1;
        proof {
            let fv = fields_view(rec@);
            assert(fv.take(i as int) =~= fv.take(i - 1).push(rec@[i - 1]@));
            lemma_ser_fields_snoc(fv.take(i - 1), rec@[i - 1]@);
            assert(out@ =~= old(out)@ + ser_num(rec@.len()) + ser_fields(fv.take(i as int)));
        }
    }
    proof {
        let fv = fields_view(rec@);
        assert(fv.take(fv.len() as int) =~= fv);
        assert(old(out)@ + ser_num(rec@.len()) + ser_fields(fv)
            =~= old(out)@ + ser_record(fv));
    }
}

/// Serialize a whole collection: exactly `ser_file` of the records' view.
pub fn save_records(records: &Vec<Vec<Field>>) -> (out: String)
    ensures
        out@ == ser_file(records_view(records@)),
        wf_file(records_view(records@)),
{
    let mut out = String::new();
    write_num(&mut out, records.len() as u64);
    let mut i: usize = 0;
    proof {
        assert(records_view(records@).take(0) =~= Seq::<Seq<FieldV>>::empty());
        assert(ser_records(Seq::<Seq<FieldV>>::empty()) =~= Seq::<char>::empty());
        assert(out@ =~= ser_num(records@.len())
            + ser_records(records_view(records@).take(0)));
    }
    while i < records.len()
        invariant
            i <= records@.len(),
            out@ == ser_num(records@.len()) + ser_records(records_view(records@).take(i as int)),
            forall|j: int| 0 <= j < i ==> wf_record(#[trigger] records_view(records@)[j]),
        decreases records@.len() - i,
    {
        write_record(&mut out, &records[i]);
        i = i + 1;
        proof {
            let rv = records_view(records@);
            assert(rv.take(i as int) =~= rv.take(i - 1).push(fields_view(records@[i - 1]@)));
            lemma_ser_records_snoc(rv.take(i - 1), fields_view(records@[i - 1]@));
            assert(out@ =~= ser_num(records@.len()) + ser_records(rv.take(i as int)));
        }
    }
    proof {
        let rv = records_view(records@);
        assert(rv.take(rv.len() as int) =~= rv);
        assert(ser_num(records@.len()) + ser_records(rv) =~= ser_file(rv));
    }
    out
}

proof fn lemma_parse_digits_ge(s: Seq<char>, acc: nat)
    ensures
        parse_digits(s, acc).0 >= acc,
    decreases s.len(),
{
    if s.len() > 0 && is_digit(s[0]) {
        lemma_parse_digits_ge(s.drop_first(), (acc * 10 + digit_val(s[0])) as nat);
    }
}

fn read_digits(s: &str, j: usize, len: usize, acc: u64) -> (r: Option<(u64, usize)>)
    requires
        len == s@.len(),
        j <= len,
    ensures
        match r {
            Some(p) => j <= p.1 <= len
                && parse_digits(s@.skip(j as int), acc as nat) == (p.0 as nat, s@.skip(p.1 as int))
                && (p.1 == len || !is_digit(s@[p.1 as int])),
            None => parse_digits(s@.skip(j as int), acc as nat).0 > u64::MAX,
        },
    decreases len - j,
{
    if j == len {
        proof {
            assert(s@.skip(j as int).len() == 0);
        }
        return Some((acc, j));
    }
    let c = s.get_char(j);
    match char_digit(c) {
        None => {
            proof {
                assert(s@.skip(j as int)[0] == s@[j as int]);
            }
            Some((acc, j))
        },
        Some(d) => {
            proof {
                assert(s@.skip(j as int)[0] == s@[j as int]);
                assert(s@.skip(j as int).drop_first() =~= s@.skip(j + 1));
            }
            if acc > (u64::MAX - d as u64) / 10 {
                proof {
                    let m = (u64::MAX - d as u64) as int;
                    assert(m / 10 * 10 + m % 10 == m);
                    assert(acc * 10 >= (m / 10 + 1) * 10) by (nonlinear_arith)
                        requires acc >= (u64::MAX - d as u64) / 10 + 1, m / 10 == (u64::MAX - d as u64) / 10 as int;
                    assert(acc * 10 + d > u64::MAX);
                    lemma_parse_digits_ge(s@.skip(j + 1), (acc * 10 + digit_val(s@[j as int])) as nat);
                }
                None
            } else {
                proof {
                    let m = (u64::MAX - d as u64) as int;
                    assert(m / 10 * 10 <= m);
                    assert(acc * 10 <= m / 10 * 10) by (nonlinear_arith)
                        requires 0 <= acc <= m / 10;
                }
                read_digits(s, j + 1, len, acc * 10 + d as u64)
            }
        },
    }
}

fn read_len(s: &str, i: usize, len: usize, term: char) -> (r: Option<(u64, usize)>)
    requires
        len == s@.len(),
        i <= len,
        !is_digit(term),
    ensures
        match r {
            Some(p) => i <= p.1 <= len
                && parse_len(s@.skip(i as int), term) == Some((p.0 as nat, s@.skip(p.1 as int))),
            None => parse_len(s@.skip(i as int), term) == None::<(nat, Seq<char>)>,
        },
{
    if i == len {
        return None;
    }
    let c0 = s.get_char(i);
    proof {
        assert(s@.skip(i as int)[0] == s@[i as int]);
    }
    match char_digit(c0) {
        None => {
            return None;
        },
        Some(_) => {},
    }
    match read_digits(s, i, len, 0) {
        None => None,
        Some((v, j)) => {
            if j == len {
                proof {
                    assert(s@.skip(j as int).len() == 0);
                }
                None
            } else {
                let t = s.get_char(j);
                proof {
                    assert(s@.skip(j as int)[0] == s@[j as int]);
                    assert(s@.skip(j as int).drop_first() =~= s@.skip(j + 1));
                }
                if t == term {
                    Some((v, j + 1))
                } else {
                    None
                }
            }
        },
    }
}

fn read_text(s: &str, i: usize, len: usize) -> (r: Option<(String, usize)>)
    requires
        len == s@.len(),
        i <= len,
    ensures
        match r {
            Some(p) => i <= p.1 <= len
                && parse_text(s@.skip(i as int)) == Some((p.0@, s@.skip(p.1 as int))),
            None => parse_text(s@.skip(i as int)) == None::<(Seq<char>, Seq<char>)>,
        },
{
    proof {
        assert(!is_digit(':'));
    }
    match read_len(s, i, len, ':') {
        None => None,
        Some((n, j)) => {
            if ((len - j) as u64) < n {
                proof {
                    assert(s@.skip(j as int).len() < n);
                }
                None
            } else {
                let nu = n as usize;
                let sub = s.substring_char(j, j + nu);
                let t = sub.to_owned();
                proof {
                    let rem = s@.skip(j as int);
                    assert(rem.take(n as int) =~= s@.subrange(j as int, j + nu));
                    assert(rem.skip(n as int) =~= s@.skip(j + nu));
                }
                Some((t, j + nu))
            }
        },
    }
}

fn read_value(s: &str, i: usize, len: usize) -> (r: Option<(FieldValue, usize)>)
    requires
        len == s@.len(),
        i <= len,
    ensures
        match r {
            Some(p) => i <= p.1 <= len
                && parse_value(s@.skip(i as int)) == Some((p.0@, s@.skip(p.1 as int))),
            None => parse_value(s@.skip(i as int)) == None::<(ValueV, Seq<char>)>,
        },
{
    if i == len {
        proof {
            assert(s@.skip(i as int).len() == 0);
        }
        return None;
    }
    let c = s.get_char(i);
    proof {
        assert(s@.skip(i as int)[0] == s@[i as int]);
        assert(s@.skip(i as int).drop_first() =~= s@.skip(i + 1));
    }
    if c == 't' {
        match read_text(s, i + 1, len) {
            Some((t, j)) => Some((FieldValue::Text(t), j)),
            None => None,
        }
    } else if c == 'n' {
        proof {
            assert(!is_digit(';'));
        }
        match read_len(s, i + 1, len, ';') {
            Some((v, j)) => Some((FieldValue::Number(v), j)),
            None => None,
        }
    } else {
        None
    }
}

fn read_field(s: &str, i: usize, len: usize) -> (r: Option<(Field, usize)>)
    requires
        len == s@.len(),
        i <= len,
    ensures
        match r {
            Some(p) => i <= p.1 <= len
                && parse_field(s@.skip(i as int)) == Some((p.0@, s@.skip(p.1 as int))),
            None => parse_field(s@.skip(i as int)) == None::<(FieldV, Seq<char>)>,
        },
{
    match read_text(s, i, len) {
        None => None,
        Some((name, j1)) => {
            if j1 == len {
                proof {
                    assert(s@.skip(j1 as int).len() == 0);
                }
                return None;
            }
            proof {
                assert(s@.skip(j1 as int)[0] == s@[j1 as int]);
                assert(s@.skip(j1 as int).drop_first() =~= s@.skip(j1 + 1));
            }
            if s.get_char(j1) != '=' {
                return None;
            }
            match read_value(s, j1 + 1, len) {
                None => None,
                Some((v, j2)) => {
                    if j2 == len {
                        proof {
                            assert(s@.skip(j2 as int).len() == 0);
                        }
                        return None;
                    }
                    proof {
                        assert(s@.skip(j2 as int)[0] == s@[j2 as int]);
                        assert(s@.skip(j2 as int).drop_first() =~= s@.skip(j2 + 1));
                    }
                    if s.get_char(j2) != ' ' {
                        return None;
                    }
                    Some((Field { name, value: v }, j2 + 1))
                },
            }
        },
    }
}

fn read_record(s: &str, i: usize, len: usize) -> (r: Option<(Vec<Field>, usize)>)
    requires
        len == s@.len(),
        i <= len,
    ensures
        match r {
            Some(p) => i <= p.1 <= len
                && parse_record(s@.skip(i as int)) == Some((fields_view(p.0@), s@.skip(p.1 as int))),
            None => parse_record(s@.skip(i as int)) == None::<(Seq<FieldV>, Seq<char>)>,
        },
{
    proof {
        assert(!is_digit(';'));
    }
    match read_len(s, i, len, ';') {
        None => None,
        Some((count, j0)) => {
            let mut rec: Vec<Field> = Vec::new();
            let mut j = j0;
            let mut k: u64 = 0;
            proof {
                assert(fields_view(rec@) =~= Seq::<FieldV>::empty());
            }
            while k < count
                invariant
                    len == s@.len(),
                    i <= j0 <= j <= len,
                    k <= count,
                    parse_len(s@.skip(i as int), ';') == Some((count as nat, s@.skip(j0 as int))),
                    parse_fields(s@.skip(j0 as int), count as nat) == (match parse_fields(
                        s@.skip(j as int),
                        (count - k) as nat,
                    ) {
                        Some(p) => Some((fields_view(rec@) + p.0, p.1)),
                        None => None::<(Seq<FieldV>, Seq<char>)>,
                    }),
                decreases count - k,
            {
                match read_field(s, j, len) {
                    None => {
                        proof {
                            assert(parse_fields(s@.skip(j as int), (count - k) as nat)
                                == None::<(Seq<FieldV>, Seq<char>)>);
                        }
                        return None;
                    },
                    Some((f, j2)) => {
                        proof {
                            let fs0 = fields_view(rec@);
                            let rest = parse_fields(s@.skip(j2 as int), (count - k - 1) as nat);
                            assert(fields_view(rec@.push(f)) =~= fs0.push(f@));
                            match rest {
                                Some(p) => {
                                    assert(fs0 + (seq![f@] + p.0) =~= fs0.push(f@) + p.0);
                                },
                                None => {},
                            }
                        }
                        rec.push(f);
                        j = j2;
                        k = k + 1;
                    },
                }
            }
            proof {
                assert(fields_view(rec@) + Seq::<FieldV>::empty() =~= fields_view(rec@));
            }
            Some((rec, j))
        },
    }
}

/// Parse a whole collection back from its serialized text; `None` exactly
/// where the text is malformed in the sense of `parse_file`.
pub fn load_records(s: &str) -> (r: Option<Vec<Vec<Field>>>)
    ensures
        match r {
            Some(rs) => parse_file(s@) == Some(records_view(rs@)),
            None => parse_file(s@) == None::<Seq<Seq<FieldV>>>,
        },
{
    let len = s.unicode_len();
    proof {
        assert(s@.skip(0) =~= s@);
        assert(!is_digit(';'));
    }
    match read_len(s, 0, len, ';') {
        None => None,
        Some((count, j0)) => {
            let mut records: Vec<Vec<Field>> = Vec::new();
            let mut j = j0;
            let mut k: u64 = 0;
            proof {
                assert(records_view(records@) =~= Seq::<Seq<FieldV>>::empty());
            }
            while k < count
                invariant
                    len == s@.len(),
                    j0 <= j <= len,
                    k <= count,
                    parse_len(s@, ';') == Some((count as nat, s@.skip(j0 as int))),
                    parse_records(s@.skip(j0 as int), count as nat) == (match parse_records(
                        s@.skip(j as int),
                        (count - k) as nat,
                    ) {
                        Some(p) => Some((records_view(records@) + p.0, p.1)),
                        None => None::<(Seq<Seq<FieldV>>, Seq<char>)>,
                    }),
                decreases count - k,
            {
                match read_record(s, j, len) {
                    None => {
                        proof {
                            assert(parse_records(s@.skip(j as int), (count - k) as nat)
                                == None::<(Seq<Seq<FieldV>>, Seq<char>)>);
                        }
                        return None;
                    },
                    Some((rec, j2)) => {
                        proof {
                            let rs0 = records_view(records@);
                            let rest = parse_records(s@.skip(j2 as int), (count - k - 1) as nat);
                            assert(records_view(records@.push(rec)) =~= rs0.push(fields_view(rec@)));
                            match rest {
                                Some(p) => {
                                    assert(rs0 + (seq![fields_view(rec@)] + p.0)
                                        =~= rs0.push(fields_view(rec@)) + p.0);
                                },
                                None => {},
                            }
                        }
                        records.push(rec);
                        j = j2;
                        k = k + 1;
                    },
                }
            }
            proof {
                assert(records_view(records@) + Seq::<Seq<FieldV>>::empty()
                    =~= records_view(records@));
            }
            if j != len {
                proof {
                    assert(s@.skip(j as int).len() > 0);
                }
                None
            } else {
                proof {
                    assert(s@.skip(j as int).len() == 0);
                }
                Some(records)
            }
        },
    }
}

/// Law: saving and loading are round-trip faithful — the serialized form of
/// any collection parses back to that very collection, order preserved.
pub proof fn lemma_save_load_round_trip(rs: Seq<Seq<FieldV>>)
    requires
        wf_file(rs),
    ensures
        parse_file(ser_file(rs)) == Some(rs),
{
    let s = ser_file(rs);
    assert(s =~= digits_of(rs.len()).push(';') + ser_records(rs));
    assert(ser_records(rs) =~= ser_records(rs) + Seq::<char>::empty());
    assert(s =~= digits_of(rs.len()).push(';') + (ser_records(rs) + Seq::<char>::empty()));
    lemma_parse_len_of(rs.len(), ';', ser_records(rs) + Seq::<char>::empty());
    lemma_parse_records_of(rs, Seq::<char>::empty());
    assert(parse_records(ser_records(rs) + Seq::<char>::empty(), rs.len())
        == Some((rs, Seq::<char>::empty())));
}

} // verus!
