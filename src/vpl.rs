//! Nodes of a pipeline declaration: an operation's tag followed by `key=value`
//! parameters, and the arguments of the property rewrite read from one.

use vstd::prelude::*;
use vstd::string::{StringExecFns, StringSliceAdditionalSpecFns};
use vstd::utf8::{decode_utf8, valid_utf8};
use crate::error::Error;
use crate::json::string_from_utf8;
use crate::properties::Args;

verus! {

/// One operation of a pipeline declaration: its tag and its parameters, in order.
#[derive(Clone, Debug)]
pub struct VPLNode {
    pub name: String,
    pub properties: Vec<(String, String)>,
}

/// A byte of a tag or parameter name: a lower-case letter, a digit or an underscore.
pub open spec fn is_name_byte(b: u8) -> bool {
    (0x61 <= b <= 0x7a) || (0x30 <= b <= 0x39) || b == 0x5f
}

/// A byte that separates tokens.
pub open spec fn is_space(b: u8) -> bool {
    b == 0x20 || b == 0x09 || b == 0x0a || b == 0x0d
}

/// The first position from `i` on that holds no byte satisfying `f`.
pub open spec fn run_end(s: Seq<u8>, i: int, f: spec_fn(u8) -> bool) -> int
    decreases s.len() - i,
{
    if i < 0 || i >= s.len() || !f(s[i]) {
        i
    } else {
        run_end(s, i + 1, f)
    }
}

/// The first position from `i` on that holds no space.
pub open spec fn spaces_end(s: Seq<u8>, i: int) -> int {
    run_end(s, i, |b: u8| is_space(b))
}

/// The value that starts at `i`: a quoted run without quotes inside, or a bare run of
/// bytes other than spaces; with the position after it.
pub open spec fn value_at(s: Seq<u8>, i: int) -> Option<(Seq<u8>, int)> {
    if 0 <= i < s.len() && s[i] == 0x22 {
        let e = run_end(s, i + 1, |b: u8| b != 0x22);
        if e < s.len() {
            Some((s.subrange(i + 1, e), e + 1))
        } else {
            None
        }
    } else {
        let e = run_end(s, i, |b: u8| !is_space(b));
        if e > i {
            Some((s.subrange(i, e), e))
        } else {
            None
        }
    }
}

/// The parameters from `i` on, each `name=value` after spaces, up to the end.
pub open spec fn pairs_from(s: Seq<u8>, i: int) -> Option<Seq<(Seq<u8>, Seq<u8>)>>
    decreases s.len() - i,
{
    let j = spaces_end(s, i);
    if i < 0 || i > s.len() || j >= s.len() {
        Some(Seq::empty())
    } else if j == i {
        None
    } else {
        let k = run_end(s, j, |b: u8| is_name_byte(b));
        if k == j || k >= s.len() || s[k] != 0x3d {
            None
        } else {
            match value_at(s, k + 1) {
                Some((v, e)) => if e <= i || e > s.len() {
                    None
                } else {
                    match pairs_from(s, e) {
                        Some(rest) => Some(seq![(s.subrange(j, k), v)] + rest),
                        None => None,
                    }
                },
                None => None,
            }
        }
    }
}

/// The tag and parameters that the bytes `s` declare, if they are well formed.
pub open spec fn parsed_node(s: Seq<u8>) -> Option<(Seq<u8>, Seq<(Seq<u8>, Seq<u8>)>)> {
    let j = spaces_end(s, 0);
    let k = run_end(s, j, |b: u8| is_name_byte(b));
    if k == j {
        None
    } else {
        match pairs_from(s, k) {
            Some(p) => Some((s.subrange(j, k), p)),
            None => None,
        }
    }
}

fn in_run(b: u8, kind: u8) -> (r: bool)
    ensures
        kind == 0 ==> r == is_space(b),
        kind == 1 ==> r == is_name_byte(b),
        kind == 2 ==> r == !is_space(b),
        kind == 3 ==> r == (b != 0x22),
{
    let space = b == 0x20 || b == 0x09 || b == 0x0a || b == 0x0d;
    if kind == 0 {
        space
    } else if kind == 1 {
        (0x61 <= b && b <= 0x7a) || (0x30 <= b && b <= 0x39) || b == 0x5f
    } else if kind == 2 {
        !space
    } else {
        b != 0x22
    }
}

fn skip_run(s: &[u8], i: usize, kind: u8) -> (r: usize)
    requires
        i <= s@.len(),
        kind <= 3,
    ensures
        kind == 0 ==> r == run_end(s@, i as int, |b: u8| is_space(b)),
        kind == 1 ==> r == run_end(s@, i as int, |b: u8| is_name_byte(b)),
        kind == 2 ==> r == run_end(s@, i as int, |b: u8| !is_space(b)),
        kind == 3 ==> r == run_end(s@, i as int, |b: u8| b != 0x22),
        i <= r <= s@.len(),
{
    let mut k = i;
    while k < s.len() && in_run(s[k], kind)
        invariant
            i <= k <= s@.len(),
            kind <= 3,
            kind == 3 ==> run_end(s@, k as int, |b: u8| b != 0x22) == run_end(s@, i as int, |b: u8| b != 0x22),
            kind == 0 ==> run_end(s@, k as int, |b: u8| is_space(b)) == run_end(s@, i as int, |b: u8| is_space(b)),
            kind == 1 ==> run_end(s@, k as int, |b: u8| is_name_byte(b)) == run_end(s@, i as int, |b: u8| is_name_byte(b)),
            kind == 2 ==> run_end(s@, k as int, |b: u8| !is_space(b)) == run_end(s@, i as int, |b: u8| !is_space(b)),
        decreases s@.len() - k,
    {
        k += 1;
    }
    k
}

fn copy_range(s: &[u8], a: usize, b: usize) -> (r: Vec<u8>)
    requires
        a <= b <= s@.len(),
    ensures
        r@ == s@.subrange(a as int, b as int),
{
    let mut r: Vec<u8> = Vec::new();
    let mut i = a;
    while i < b
        invariant
            a <= i <= b <= s@.len(),
            r@ == s@.subrange(a as int, i as int),
        decreases b - i,
    {
        r.push(s[i]);
        proof {
            assert(r@ =~= s@.subrange(a as int, i + 1));
        }
        i += 1;
    }
    r
}

fn text_of(s: &[u8], a: usize, b: usize) -> (r: Result<String, Error>)
    requires
        a <= b <= s@.len(),
    ensures
        r is Ok <==> valid_utf8(s@.subrange(a as int, b as int)),
        r matches Ok(t) ==> t@ == decode_utf8(s@.subrange(a as int, b as int)),
        r matches Err(e) ==> e == Error::InvalidConfig,
{
    match string_from_utf8(copy_range(s, a, b)) {
        Some(t) => Ok(t),
        None => Err(Error::InvalidConfig),
    }
}

/// Every name and value is valid UTF-8.
pub open spec fn pairs_utf8(p: Seq<(Seq<u8>, Seq<u8>)>) -> bool {
    forall|i: int| 0 <= i < p.len() ==> valid_utf8((#[trigger] p[i]).0) && valid_utf8(p[i].1)
}

/// The texts that parsed byte pairs give.
pub open spec fn pairs_decode(p: Seq<(Seq<u8>, Seq<u8>)>, q: Seq<(String, String)>) -> bool {
    &&& p.len() == q.len()
    &&& forall|i: int|
        0 <= i < p.len() ==> (#[trigger] q[i]).0@ == decode_utf8(p[i].0) && q[i].1@ == decode_utf8(
            p[i].1,
        )
}

/// A pair that is not valid UTF-8, parsed after `acc`, leaves the parameters from `k`
/// on not all valid UTF-8.
proof fn lemma_bad_pair(
    s: Seq<u8>,
    k: int,
    i: int,
    acc: Seq<(Seq<u8>, Seq<u8>)>,
    pair: (Seq<u8>, Seq<u8>),
    next: int,
)
    requires
        pairs_from(s, k) == match pairs_from(s, i) {
            Some(rest) => Some(acc + rest),
            None => None,
        },
        pairs_from(s, i) == match pairs_from(s, next) {
            Some(rest) => Some(seq![pair] + rest),
            None => None,
        },
        !(valid_utf8(pair.0) && valid_utf8(pair.1)),
    ensures
        !(pairs_from(s, k) matches Some(p) && pairs_utf8(p)),
{
    match pairs_from(s, next) {
        Some(rest) => {
            let p = acc + (seq![pair] + rest);
            assert(p[acc.len() as int] == pair);
        },
        None => {},
    }
}

impl VPLNode {
    /// Parses a node: its tag, a run of lower-case letters, digits and underscores,
    /// then parameters `name=value`, each after spaces, whose value is quoted (without
    /// quotes inside) or a bare run of bytes other than spaces. Fails with
    /// `InvalidConfig` where the text is malformed.
    pub fn from_str(text: &str) -> (r: Result<VPLNode, Error>)
        ensures
            r is Ok <==> (parsed_node(text.spec_bytes()) matches Some((n, p)) && valid_utf8(n)
                && pairs_utf8(p)),
            r matches Ok(node) ==> parsed_node(text.spec_bytes()) matches Some((n, p))
                && node.name@ == decode_utf8(n) && pairs_decode(p, node.properties@),
            r matches Err(e) ==> e == Error::InvalidConfig,
    {
        let s = text.as_bytes();
        let ghost sb = s@;
        let len = s.len();
        let j = skip_run(s, 0, 0);
        let k = skip_run(s, j, 1);
        if k == j {
            return Err(Error::InvalidConfig);
        }
        let name = text_of(s, j, k)?;
        let ghost nb = sb.subrange(j as int, k as int);
        let mut properties: Vec<(String, String)> = Vec::new();
        let ghost mut acc: Seq<(Seq<u8>, Seq<u8>)> = Seq::empty();
        let mut i = k;
        loop
            invariant_except_break
                pairs_from(sb, k as int) == match pairs_from(sb, i as int) {
                    Some(rest) => Some(acc + rest),
                    None => None,
                },
            invariant
                sb == s@,
                sb == text.spec_bytes(),
                len == sb.len(),
                k <= i <= len,
                pairs_decode(acc, properties@),
                pairs_utf8(acc),
                parsed_node(sb) == match pairs_from(sb, k as int) {
                    Some(p) => Some((nb, p)),
                    None => None,
                },
                valid_utf8(nb),
            ensures
                pairs_from(sb, k as int) == Some(acc),
            decreases len - i,
        {
            let j = skip_run(s, i, 0);
            if j >= len {
                proof {
                    assert(pairs_from(sb, i as int) == Some(Seq::<(Seq<u8>, Seq<u8>)>::empty()));
                    assert(acc + Seq::<(Seq<u8>, Seq<u8>)>::empty() =~= acc);
                }
                break;
            }
            if j == i {
                return Err(Error::InvalidConfig);
            }
            let kk = skip_run(s, j, 1);
            if kk == j || kk >= len || s[kk] != 0x3d {
                return Err(Error::InvalidConfig);
            }
            let (vs, ve, next) = if kk + 1 < len && s[kk + 1] == 0x22 {
                let e = skip_run(s, kk + 2, 3);
                if e >= len {
                    return Err(Error::InvalidConfig);
                }
                (kk + 2, e, e + 1)
            } else {
                let e = skip_run(s, kk + 1, 2);
                if e == kk + 1 {
                    return Err(Error::InvalidConfig);
                }
                (kk + 1, e, e)
            };
            let ghost pair = (sb.subrange(j as int, kk as int), sb.subrange(vs as int, ve as int));
            proof {
                assert(value_at(sb, kk + 1) == Some((pair.1, next as int)));
            }
            let key = match text_of(s, j, kk) {
                Ok(t) => t,
                Err(e) => {
                    proof {
                        lemma_bad_pair(sb, k as int, i as int, acc, pair, next as int);
                    }
                    return Err(e);
                },
            };
            let value = match text_of(s, vs, ve) {
                Ok(t) => t,
                Err(e) => {
                    proof {
                        lemma_bad_pair(sb, k as int, i as int, acc, pair, next as int);
                    }
                    return Err(e);
                },
            };
            proof {
                assert(value_at(sb, kk + 1) == Some((pair.1, next as int)));
                match pairs_from(sb, next as int) {
                    Some(rest) => {
                        assert(pairs_from(sb, i as int) == Some(seq![pair] + rest));
                        assert(acc + (seq![pair] + rest) =~= acc.push(pair) + rest);
                    },
                    None => {
                        assert(pairs_from(sb, i as int) is None);
                    },
                }
            }
            properties.push((key, value));
            proof {
                acc = acc.push(pair);
            }
            i = next;
        }
        Ok(VPLNode { name, properties })
    }

    /// The value of the first parameter named `key`, if any.
    pub fn get(&self, key: &str) -> (r: Option<String>)
        ensures
            r == node_value(self.properties@, key@),
    {
        let k = String::from_str(key);
        let ghost p = self.properties@;
        let mut i: usize = 0;
        proof {
            assert(p.subrange(0, p.len() as int) =~= p);
        }
        while i < self.properties.len()
            invariant
                p == self.properties@,
                0 <= i <= p.len(),
                k@ == key@,
                node_value(p, key@) == node_value(p.subrange(i as int, p.len() as int), key@),
            decreases p.len() - i,
        {
            proof {
                let t = p.subrange(i as int, p.len() as int);
                assert(t[0] == p[i as int]);
                assert(t.drop_first() =~= p.subrange(i + 1, p.len() as int));
            }
            if self.properties[i].0 == k {
                return Some(self.properties[i].1.clone());
            }
            i += 1;
        }
        None
    }
}

/// The value of the first parameter of `p` named `key`, if any.
pub open spec fn node_value(p: Seq<(String, String)>, key: Seq<char>) -> Option<String>
    decreases p.len(),
{
    if p.len() == 0 {
        None
    } else if p[0].0@ == key {
        Some(p[0].1)
    } else {
        node_value(p.drop_first(), key)
    }
}

/// The flag that a parameter gives: false where it is absent; none where its value is
/// neither `true` nor `false`.
pub open spec fn flag_of(v: Option<String>) -> Option<bool> {
    match v {
        None => Some(false),
        Some(t) => if t@ == "true"@ {
            Some(true)
        } else if t@ == "false"@ {
            Some(false)
        } else {
            None
        },
    }
}

fn read_flag(node: &VPLNode, key: &str) -> (r: Result<bool, Error>)
    ensures
        match flag_of(node_value(node.properties@, key@)) {
            Some(b) => r == Ok::<bool, Error>(b),
            None => r == Err::<bool, Error>(Error::InvalidConfig),
        },
{
    proof {
        reveal_strlit("true");
        reveal_strlit("false");
    }
    match node.get(key) {
        None => Ok(false),
        Some(v) => {
            if v == String::from_str("true") {
                Ok(true)
            } else if v == String::from_str("false") {
                Ok(false)
            } else {
                Err(Error::InvalidConfig)
            }
        },
    }
}

fn read_required(node: &VPLNode, key: &str) -> (r: Result<String, Error>)
    ensures
        match node_value(node.properties@, key@) {
            Some(v) => r == Ok::<String, Error>(v),
            None => r == Err::<String, Error>(Error::InvalidConfig),
        },
{
    match node.get(key) {
        Some(v) => Ok(v),
        None => Err(Error::InvalidConfig),
    }
}

impl Args {
    /// Reads the arguments of the property rewrite from a node: `data_source_path`,
    /// `id_field_tiles` and `id_field_data` are required, `layer_name` is optional, and
    /// the flags `replace_properties`, `remove_non_matching` and `include_id` are false
    /// unless given as `true`. Fails with `InvalidConfig` where a required parameter is
    /// missing or a flag is neither `true` nor `false`.
    pub fn from_vpl_node(node: &VPLNode) -> (r: Result<Args, Error>)
        ensures
            r matches Ok(a) ==> {
                &&& Some(a.data_source_path) == node_value(node.properties@, "data_source_path"@)
                &&& Some(a.id_field_tiles) == node_value(node.properties@, "id_field_tiles"@)
                &&& Some(a.id_field_data) == node_value(node.properties@, "id_field_data"@)
                &&& a.layer_name == node_value(node.properties@, "layer_name"@)
                &&& Some(a.replace_properties) == flag_of(node_value(node.properties@, "replace_properties"@))
                &&& Some(a.remove_non_matching) == flag_of(node_value(node.properties@, "remove_non_matching"@))
                &&& Some(a.include_id) == flag_of(node_value(node.properties@, "include_id"@))
            },
            r is Err <==> node_value(node.properties@, "data_source_path"@) is None
                || node_value(node.properties@, "id_field_tiles"@) is None
                || node_value(node.properties@, "id_field_data"@) is None
                || flag_of(node_value(node.properties@, "replace_properties"@)) is None
                || flag_of(node_value(node.properties@, "remove_non_matching"@)) is None
                || flag_of(node_value(node.properties@, "include_id"@)) is None,
            r matches Err(e) ==> e == Error::InvalidConfig,
    {
        let data_source_path = read_required(node, "data_source_path")?;
        let id_field_tiles = read_required(node, "id_field_tiles")?;
        let id_field_data = read_required(node, "id_field_data")?;
        let layer_name = node.get("layer_name");
        let replace_properties = read_flag(node, "replace_properties")?;
        let remove_non_matching = read_flag(node, "remove_non_matching")?;
        let include_id = read_flag(node, "include_id")?;
        Ok(Args {
            data_source_path,
            id_field_tiles,
            id_field_data,
            layer_name,
            replace_properties,
            remove_non_matching,
            include_id,
        })
    }
}

} // verus!
