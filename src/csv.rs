//! Rows of comma-separated data: a header line of column names, then one line per row.

use vstd::prelude::*;
use vstd::utf8::{decode_utf8, valid_utf8};
use crate::error::Error;
use crate::json::string_from_utf8;
use crate::properties::{GeoProperties, GeoValue};

verus! {

/// A byte that ends a field.
pub open spec fn ends_field(b: u8) -> bool {
    b == 0x2c || b == 0x0a
}

/// The first position from `i` on that ends a field, or the end.
pub open spec fn field_end(s: Seq<u8>, i: int) -> int
    decreases s.len() - i,
{
    if i < 0 || i >= s.len() || ends_field(s[i]) {
        i
    } else {
        field_end(s, i + 1)
    }
}

/// The fields of the line that starts at `i`, and the position after its line break.
pub open spec fn line_at(s: Seq<u8>, i: int) -> (Seq<Seq<u8>>, int)
    decreases s.len() - i, 0int,
{
    let e = field_end(s, i);
    if 0 <= i <= e < s.len() && s[e] == 0x2c {
        let rest = line_at(s, e + 1);
        (seq![s.subrange(i, e)] + rest.0, rest.1)
    } else if 0 <= i <= e < s.len() {
        (seq![s.subrange(i, e)], e + 1)
    } else {
        (seq![s.subrange(i, e)], e)
    }
}

/// The lines from `i` on that hold more than one empty field.
pub open spec fn lines_from(s: Seq<u8>, i: int) -> Seq<Seq<Seq<u8>>>
    decreases s.len() - i,
{
    if i < 0 || i >= s.len() {
        Seq::empty()
    } else {
        let (fields, next) = line_at(s, i);
        if next <= i || next > s.len() {
            Seq::empty()
        } else if fields.len() == 1 && fields[0].len() == 0 {
            lines_from(s, next)
        } else {
            seq![fields] + lines_from(s, next)
        }
    }
}

/// The value of the decimal digits `f`.
pub open spec fn decimal_value(f: Seq<u8>) -> nat
    decreases f.len(),
{
    if f.len() == 0 {
        0
    } else {
        decimal_value(f.drop_last()) * 10 + (f.last() - 0x30) as nat
    }
}

/// The field holds a decimal number that fits `u64`.
pub open spec fn is_uint_field(f: Seq<u8>) -> bool {
    &&& f.len() > 0
    &&& forall|i: int| 0 <= i < f.len() ==> 0x30 <= #[trigger] f[i] <= 0x39
    &&& decimal_value(f) <= u64::MAX
}

/// The value that field `f` gives: a number where it is one, else its text.
pub open spec fn field_value(v: GeoValue, f: Seq<u8>) -> bool {
    if is_uint_field(f) {
        v == GeoValue::UInt(decimal_value(f) as u64)
    } else {
        v matches GeoValue::Str(t) && t@ == decode_utf8(f)
    }
}

/// A row and its fields under the column names: one value per column, in order.
pub open spec fn row_matches(row: GeoProperties, names: Seq<Seq<u8>>, fields: Seq<Seq<u8>>) -> bool {
    &&& row.entries@.len() == names.len()
    &&& forall|k: int|
        0 <= k < names.len() ==> (#[trigger] row.entries@[k]).0@ == decode_utf8(names[k])
            && field_value(row.entries@[k].1, fields[k])
}

/// Every field is valid UTF-8.
pub open spec fn all_utf8(fields: Seq<Seq<u8>>) -> bool {
    forall|k: int| 0 <= k < fields.len() ==> valid_utf8(#[trigger] fields[k])
}

fn find_field_end(s: &[u8], i: usize) -> (r: usize)
    requires
        i <= s@.len(),
    ensures
        r == field_end(s@, i as int),
        i <= r <= s@.len(),
{
    let mut k = i;
    while k < s.len() && s[k] != 0x2c && s[k] != 0x0a
        invariant
            i <= k <= s@.len(),
            field_end(s@, k as int) == field_end(s@, i as int),
        decreases s@.len() - k,
    {
        k += 1;
    }
    k
}

proof fn lemma_line_progress(s: Seq<u8>, i: int)
    requires
        0 <= i <= s.len(),
    ensures
        i <= line_at(s, i).1 <= s.len(),
        i < s.len() ==> i < line_at(s, i).1,
        line_at(s, i).0.len() > 0,
    decreases s.len() - i,
{
    lemma_field_end_range(s, i);
    let e = field_end(s, i);
    if e < s.len() && s[e] == 0x2c {
        lemma_line_progress(s, e + 1);
    }
}

proof fn lemma_field_end_range(s: Seq<u8>, i: int)
    requires
        0 <= i <= s.len(),
    ensures
        i <= field_end(s, i) <= s.len(),
        field_end(s, i) < s.len() ==> ends_field(s[field_end(s, i)]),
    decreases s.len() - i,
{
    if i < s.len() && !ends_field(s[i]) {
        lemma_field_end_range(s, i + 1);
    }
}

/// The fields of the line that starts at `i`, and the position after its line break.
fn read_line(s: &[u8], i: usize) -> (r: (Vec<Vec<u8>>, usize))
    requires
        i <= s@.len(),
    ensures
        r.0@.map_values(|f: Vec<u8>| f@) == line_at(s@, i as int).0,
        r.1 == line_at(s@, i as int).1,
{
    let mut fields: Vec<Vec<u8>> = Vec::new();
    let mut p = i;
    loop
        invariant_except_break
            fields@.map_values(|f: Vec<u8>| f@) + line_at(s@, p as int).0 == line_at(s@, i as int).0,
            line_at(s@, p as int).1 == line_at(s@, i as int).1,
        invariant
            i <= p <= s@.len(),
        ensures
            fields@.map_values(|f: Vec<u8>| f@) == line_at(s@, i as int).0,
            p == line_at(s@, i as int).1,
        decreases s@.len() - p,
    {
        let e = find_field_end(s, p);
        let mut f: Vec<u8> = Vec::new();
        let mut k = p;
        while k < e
            invariant
                p <= k <= e <= s@.len(),
                f@ == s@.subrange(p as int, k as int),
            decreases e - k,
        {
            f.push(s[k]);
            proof {
                assert(f@ =~= s@.subrange(p as int, k + 1));
            }
            k += 1;
        }
        let ghost before = fields@.map_values(|f: Vec<u8>| f@);
        let ghost piece = f@;
        fields.push(f);
        proof {
            assert(fields@.map_values(|f: Vec<u8>| f@) =~= before.push(piece));
        }
        if e < s.len() && s[e] == 0x2c {
            proof {
                let rest = line_at(s@, e + 1);
                assert(line_at(s@, p as int).0 == seq![piece] + rest.0);
                assert(before.push(piece) + rest.0 =~= before + (seq![piece] + rest.0));
            }
            p = e + 1;
        } else {
            proof {
                assert(line_at(s@, p as int).0 == seq![piece]);
                assert(before.push(piece) =~= before + seq![piece]);
            }
            if e < s.len() {
                p = e + 1;
            } else {
                p = e;
            }
            break;
        }
    }
    (fields, p)
}

/// The value that a field gives: a number where it is one, else its text.
fn value_of_field(f: &Vec<u8>) -> (r: Result<GeoValue, Error>)
    ensures
        r matches Ok(v) ==> field_value(v, f@),
        r is Err <==> !is_uint_field(f@) && !valid_utf8(f@),
        r matches Err(e) ==> e == Error::InvalidConfig,
{
    let mut v: u64 = 0;
    let mut i: usize = 0;
    let mut number = f.len() > 0;
    while i < f.len() && number
        invariant
            0 <= i <= f@.len(),
            number ==> (forall|j: int| 0 <= j < i ==> 0x30 <= #[trigger] f@[j] <= 0x39)
                && decimal_value(f@.subrange(0, i as int)) == v && f@.len() > 0,
            !number ==> !is_uint_field(f@),
        decreases f@.len() - i,
    {
        let b = f[i];
        proof {
            let t = f@.subrange(0, i + 1);
            assert(t.drop_last() =~= f@.subrange(0, i as int));
        }
        if b < 0x30 || b > 0x39 {
            number = false;
        } else {
            let d = (b - 0x30) as u64;
            if v > (u64::MAX - d) / 10 {
                proof {
                    let t = f@.subrange(0, i + 1);
                    assert(decimal_value(t) == v * 10 + d);
                    assert(v * 10 + d > u64::MAX) by (nonlinear_arith)
                        requires
                            v > (u64::MAX - d) / 10,
                            d <= 9,
                    ;
                    if forall|j: int| 0 <= j < f@.len() ==> 0x30 <= #[trigger] f@[j] <= 0x39 {
                        lemma_decimal_prefix_bound(f@, (i + 1) as int);
                    }
                }
                number = false;
            } else {
                v = v * 10 + d;
            }
        }
        i += 1;
    }
    if number {
        proof {
            assert(f@.subrange(0, f@.len() as int) =~= f@);
        }
        Ok(GeoValue::UInt(v))
    } else {
        match string_from_utf8(copy_bytes(f)) {
            Some(t) => Ok(GeoValue::Str(t)),
            None => Err(Error::InvalidConfig),
        }
    }
}

proof fn lemma_decimal_prefix_bound(f: Seq<u8>, m: int)
    requires
        0 <= m <= f.len(),
        forall|j: int| 0 <= j < f.len() ==> 0x30 <= #[trigger] f[j] <= 0x39,
    ensures
        decimal_value(f.subrange(0, m)) <= decimal_value(f),
    decreases f.len() - m,
{
    if m < f.len() {
        lemma_decimal_prefix_bound(f, m + 1);
        let t = f.subrange(0, m + 1);
        assert(t.drop_last() =~= f.subrange(0, m));
    } else {
        assert(f.subrange(0, m) =~= f);
    }
}

fn copy_bytes(f: &Vec<u8>) -> (r: Vec<u8>)
    ensures
        r@ == f@,
{
    let mut r: Vec<u8> = Vec::new();
    let mut i: usize = 0;
    while i < f.len()
        invariant
            0 <= i <= f@.len(),
            r@ == f@.subrange(0, i as int),
        decreases f@.len() - i,
    {
        r.push(f[i]);
        proof {
            assert(r@ =~= f@.subrange(0, i + 1));
        }
        i += 1;
    }
    proof {
        assert(f@.subrange(0, f@.len() as int) =~= f@);
    }
    r
}

/// A line fits the header: one field per column, each a number or valid UTF-8.
pub open spec fn line_ok(names: Seq<Seq<u8>>, fields: Seq<Seq<u8>>) -> bool {
    &&& fields.len() == names.len()
    &&& forall|k: int|
        0 <= k < fields.len() ==> is_uint_field(#[trigger] fields[k]) || valid_utf8(fields[k])
}

fn row_of(names: &Vec<String>, fields: &Vec<Vec<u8>>, Ghost(raw): Ghost<Seq<Seq<u8>>>) -> (r: Result<
    GeoProperties,
    Error,
>)
    requires
        names@.len() == raw.len(),
        forall|k: int| 0 <= k < raw.len() ==> (#[trigger] names@[k])@ == decode_utf8(raw[k]),
    ensures
        r is Ok <==> line_ok(raw, fields@.map_values(|f: Vec<u8>| f@)),
        r matches Ok(row) ==> row_matches(row, raw, fields@.map_values(|f: Vec<u8>| f@)),
        r matches Err(e) ==> e == Error::InvalidConfig,
{
    let ghost fs = fields@.map_values(|f: Vec<u8>| f@);
    if fields.len() != names.len() {
        return Err(Error::InvalidConfig);
    }
    let mut entries: Vec<(String, GeoValue)> = Vec::new();
    let mut k: usize = 0;
    while k < fields.len()
        invariant
            fs == fields@.map_values(|f: Vec<u8>| f@),
            names@.len() == raw.len(),
            fields@.len() == raw.len(),
            forall|j: int| 0 <= j < raw.len() ==> (#[trigger] names@[j])@ == decode_utf8(raw[j]),
            0 <= k <= fields@.len(),
            entries@.len() == k,
            forall|j: int| 0 <= j < k ==> is_uint_field(#[trigger] fs[j]) || valid_utf8(fs[j]),
            forall|j: int|
                0 <= j < k ==> (#[trigger] entries@[j]).0@ == decode_utf8(raw[j]) && field_value(
                    entries@[j].1,
                    fs[j],
                ),
        decreases fields@.len() - k,
    {
        let v = match value_of_field(&fields[k]) {
            Ok(v) => v,
            Err(e) => {
                proof {
                    assert(!(is_uint_field(fs[k as int]) || valid_utf8(fs[k as int])));
                }
                return Err(e);
            },
        };
        entries.push((names[k].clone(), v));
        k += 1;
    }
    Ok(GeoProperties { entries })
}

/// Reads comma-separated data: the first line names the columns, each further line
/// that is not empty holds one row with one field per column. A field of decimal
/// digits that fits `u64` becomes a number, any other its text. Lines end with a line
/// feed; fields hold no commas. Fails with `InvalidConfig` where a line has another
/// number of fields than the header or a field is not valid UTF-8.
pub fn parse_csv(text: &[u8]) -> (r: Result<Vec<GeoProperties>, Error>)
    ensures
        ({
            let (names, start) = line_at(text@, 0);
            let lines = lines_from(text@, start);
            &&& r is Ok <==> all_utf8(names) && forall|k: int|
                0 <= k < lines.len() ==> line_ok(names, #[trigger] lines[k])
            &&& r matches Ok(rows) ==> rows@.len() == lines.len() && forall|k: int|
                0 <= k < lines.len() ==> row_matches(#[trigger] rows@[k], names, lines[k])
        }),
        r matches Err(e) ==> e == Error::InvalidConfig,
{
    let ghost s = text@;
    let (raw_names, start) = read_line(text, 0);
    let ghost raw = raw_names@.map_values(|f: Vec<u8>| f@);
    let mut names: Vec<String> = Vec::new();
    let mut k: usize = 0;
    while k < raw_names.len()
        invariant
            raw == raw_names@.map_values(|f: Vec<u8>| f@),
            raw == line_at(text@, 0).0,
            0 <= k <= raw_names@.len(),
            names@.len() == k,
            forall|j: int| 0 <= j < k ==> valid_utf8(#[trigger] raw[j]),
            forall|j: int| 0 <= j < k ==> (#[trigger] names@[j])@ == decode_utf8(raw[j]),
        decreases raw_names@.len() - k,
    {
        match string_from_utf8(copy_bytes(&raw_names[k])) {
            Some(t) => names.push(t),
            None => {
                proof {
                    assert(!valid_utf8(raw[k as int]));
                }
                return Err(Error::InvalidConfig);
            },
        }
        k += 1;
    }
    let mut rows: Vec<GeoProperties> = Vec::new();
    let mut p = start;
    let ghost mut done: Seq<Seq<Seq<u8>>> = Seq::empty();
    proof {
        lemma_line_progress(s, 0);
        assert(done + lines_from(s, p as int) =~= lines_from(s, start as int));
    }
    while p < text.len()
        invariant
            s == text@,
            raw == line_at(s, 0).0,
            start == line_at(s, 0).1,
            names@.len() == raw.len(),
            all_utf8(raw),
            forall|j: int| 0 <= j < raw.len() ==> (#[trigger] names@[j])@ == decode_utf8(raw[j]),
            start <= p <= s.len(),
            done + lines_from(s, p as int) == lines_from(s, start as int),
            rows@.len() == done.len(),
            forall|j: int| 0 <= j < done.len() ==> line_ok(raw, #[trigger] done[j]),
            forall|j: int| 0 <= j < done.len() ==> row_matches(#[trigger] rows@[j], raw, done[j]),
        decreases s.len() - p,
    {
        let (fields, next) = read_line(text, p);
        let ghost fs = fields@.map_values(|f: Vec<u8>| f@);
        proof {
            lemma_line_progress(s, p as int);
        }
        if fields.len() == 1 && fields[0].len() == 0 {
            proof {
                assert(fs[0].len() == 0);
            }
        } else {
            let row = match row_of(&names, &fields, Ghost(raw)) {
                Ok(row) => row,
                Err(e) => {
                    proof {
                        assert(lines_from(s, p as int) == seq![fs] + lines_from(s, next as int));
                        assert(lines_from(s, start as int)[done.len() as int] == fs);
                    }
                    return Err(e);
                },
            };
            rows.push(row);
            proof {
                assert(lines_from(s, p as int) == seq![fs] + lines_from(s, next as int));
                assert(done + (seq![fs] + lines_from(s, next as int)) =~= done.push(fs) + lines_from(s, next as int));
                done = done.push(fs);
            }
        }
        p = next;
    }
    proof {
        assert(lines_from(s, p as int) == Seq::<Seq<Seq<u8>>>::empty());
        assert(done + Seq::<Seq<Seq<u8>>>::empty() =~= done);
    }
    Ok(rows)
}

} // verus!
