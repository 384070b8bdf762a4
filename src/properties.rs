//! Feature properties, and the rewrite of them from rows of tabular data joined by an
//! id field.

use vstd::prelude::*;
use vstd::string::StringExecFns;
use crate::blob::Blob;
use crate::compression::TileCompression;
use crate::error::Error;
use crate::header::TileFormat;
use crate::reader::TilesReaderParameters;

verus! {

/// A property value.
#[derive(Clone, Debug, PartialEq)]
pub enum GeoValue {
    Str(String),
    UInt(u64),
    Int(i64),
    Bool(bool),
}

/// The decimal digit for `d`.
pub open spec fn digit_char(d: nat) -> char {
    if d == 0 { '0' } else if d == 1 { '1' } else if d == 2 { '2' } else if d == 3 { '3' }
    else if d == 4 { '4' } else if d == 5 { '5' } else if d == 6 { '6' } else if d == 7 { '7' }
    else if d == 8 { '8' } else { '9' }
}

/// The decimal digits of `n`, without leading zeros.
pub open spec fn decimal_of(n: nat) -> Seq<char>
    decreases n,
{
    if n < 10 {
        seq![digit_char(n)]
    } else {
        decimal_of(n / 10).push(digit_char(n % 10))
    }
}

/// The decimal form of `n`, with a leading minus where it is negative.
pub open spec fn signed_decimal_of(n: int) -> Seq<char> {
    if n < 0 {
        seq!['-'] + decimal_of((-n) as nat)
    } else {
        decimal_of(n as nat)
    }
}

fn digit(d: u64) -> (c: char)
    requires
        d < 10,
    ensures
        c == digit_char(d as nat),
{
    if d == 0 { '0' } else if d == 1 { '1' } else if d == 2 { '2' } else if d == 3 { '3' }
    else if d == 4 { '4' } else if d == 5 { '5' } else if d == 6 { '6' } else if d == 7 { '7' }
    else if d == 8 { '8' } else { '9' }
}

/// Appends the decimal digits of `n` to `s`.
fn push_decimal(s: &mut String, n: u64)
    ensures
        final(s)@ == old(s)@ + decimal_of(n as nat),
{
    let mut m = n;
    let mut rev: Vec<char> = Vec::new();
    let ghost mut suffix: Seq<char> = Seq::empty();
    while m >= 10
        invariant
            decimal_of(n as nat) == decimal_of(m as nat) + suffix,
            rev@.len() == suffix.len(),
            forall|k: int| 0 <= k < rev@.len() ==> #[trigger] rev@[k] == suffix[suffix.len() - 1 - k],
        decreases m,
    {
        let c = digit(m % 10);
        proof {
            assert(decimal_of(m as nat) == decimal_of((m / 10) as nat).push(c));
            assert(decimal_of((m / 10) as nat).push(c) + suffix =~= decimal_of((m / 10) as nat) + (
            seq![c] + suffix));
            suffix = seq![c] + suffix;
        }
        rev.push(c);
        m = m / 10;
    }
    let ghost start = s@;
    let c = digit(m);
    crate::json::push_char(s, c);
    proof {
        assert(decimal_of(m as nat) == seq![c]);
    }
    let mut k = rev.len();
    while k > 0
        invariant
            0 <= k <= rev@.len(),
            rev@.len() == suffix.len(),
            forall|q: int| 0 <= q < rev@.len() ==> #[trigger] rev@[q] == suffix[suffix.len() - 1 - q],
            s@ == start + seq![c] + suffix.subrange(0, (rev@.len() - k) as int),
        decreases k,
    {
        let ghost before = s@;
        crate::json::push_char(s, rev[k - 1]);
        proof {
            let t = (rev@.len() - k) as int;
            assert(rev@[k - 1] == suffix[t]);
            assert(suffix.subrange(0, t + 1) =~= suffix.subrange(0, t).push(suffix[t]));
            assert(s@ =~= start + seq![c] + suffix.subrange(0, t + 1));
        }
        k -= 1;
    }
    proof {
        assert(suffix.subrange(0, suffix.len() as int) =~= suffix);
        assert(start + seq![c] + suffix =~= start + (seq![c] + suffix));
    }
}

/// The decimal digits of `n`.
fn u64_to_string(n: u64) -> (r: String)
    ensures
        r@ == decimal_of(n as nat),
{
    let mut s = String::new();
    push_decimal(&mut s, n);
    proof {
        assert(Seq::<char>::empty() + decimal_of(n as nat) =~= decimal_of(n as nat));
    }
    s
}

/// The decimal digits of `n`, with a minus where it is negative.
fn i64_to_string(n: i64) -> (r: String)
    ensures
        r@ == signed_decimal_of(n as int),
{
    let mut s = String::new();
    if n < 0 {
        crate::json::push_char(&mut s, '-');
        let m: u64 = (0 - (n as i128)) as u64;
        push_decimal(&mut s, m);
    } else {
        push_decimal(&mut s, n as u64);
        proof {
            assert(Seq::<char>::empty() + decimal_of(n as nat) =~= decimal_of(n as nat));
        }
    }
    s
}

impl GeoValue {
    /// The text of the value, as a join key.
    pub open spec fn spec_key(&self) -> Seq<char> {
        match self {
            GeoValue::Str(s) => s@,
            GeoValue::UInt(n) => decimal_of(*n as nat),
            GeoValue::Int(n) => signed_decimal_of(*n as int),
            GeoValue::Bool(b) => if *b { "true"@ } else { "false"@ },
        }
    }

    /// The text of the value, as a join key.
    pub fn to_key(&self) -> (r: String)
        ensures
            r@ == self.spec_key(),
    {
        match self {
            GeoValue::Str(s) => s.clone(),
            GeoValue::UInt(n) => u64_to_string(*n),
            GeoValue::Int(n) => i64_to_string(*n),
            GeoValue::Bool(b) => {
                proof {
                    reveal_strlit("true");
                    reveal_strlit("false");
                }
                if *b {
                    "true".to_string()
                } else {
                    "false".to_string()
                }
            },
        }
    }

    /// An owned copy of the value.
    pub fn copied(&self) -> (r: GeoValue)
        ensures
            r == *self,
    {
        match self {
            GeoValue::Str(s) => GeoValue::Str(s.clone()),
            GeoValue::UInt(n) => GeoValue::UInt(*n),
            GeoValue::Int(n) => GeoValue::Int(*n),
            GeoValue::Bool(b) => GeoValue::Bool(*b),
        }
    }
}

/// The map that a list of entries gives; a later entry under a key replaces an earlier one.
pub open spec fn entries_map(s: Seq<(String, GeoValue)>) -> Map<Seq<char>, GeoValue>
    decreases s.len(),
{
    if s.len() == 0 {
        Map::empty()
    } else {
        entries_map(s.drop_last()).insert(s.last().0@, s.last().1)
    }
}

proof fn lemma_entries_map_concat(a: Seq<(String, GeoValue)>, b: Seq<(String, GeoValue)>)
    ensures
        entries_map(a + b) == entries_map(a).union_prefer_right(entries_map(b)),
    decreases b.len(),
{
    if b.len() == 0 {
        assert(a + b =~= a);
        assert(entries_map(a).union_prefer_right(entries_map(b)) =~= entries_map(a));
    } else {
        lemma_entries_map_concat(a, b.drop_last());
        assert((a + b).drop_last() =~= a + b.drop_last());
        assert((a + b).last() == b.last());
        assert(entries_map(a + b) =~= entries_map(a).union_prefer_right(entries_map(b)));
    }
}

proof fn lemma_entries_map_tail(s: Seq<(String, GeoValue)>, m: int, k: Seq<char>)
    requires
        0 <= m <= s.len(),
        forall|j: int| m <= j < s.len() ==> (#[trigger] s[j]).0@ != k,
    ensures
        entries_map(s).contains_key(k) == entries_map(s.subrange(0, m)).contains_key(k),
        entries_map(s).contains_key(k) ==> entries_map(s)[k] == entries_map(s.subrange(0, m))[k],
    decreases s.len(),
{
    if s.len() > m {
        lemma_entries_map_tail(s.drop_last(), m, k);
        assert(s.drop_last().subrange(0, m) =~= s.subrange(0, m));
    } else {
        assert(s.subrange(0, m) =~= s);
    }
}

/// The properties of a feature: named values.
#[derive(Clone, Debug, PartialEq)]
pub struct GeoProperties {
    pub entries: Vec<(String, GeoValue)>,
}

impl View for GeoProperties {
    type V = Map<Seq<char>, GeoValue>;

    open spec fn view(&self) -> Map<Seq<char>, GeoValue> {
        entries_map(self.entries@)
    }
}

impl GeoProperties {
    /// No properties.
    pub fn new() -> (r: GeoProperties)
        ensures
            r@ == Map::<Seq<char>, GeoValue>::empty(),
    {
        GeoProperties { entries: Vec::new() }
    }

    /// The value under `key`, if any.
    pub fn get(&self, key: &str) -> (r: Option<GeoValue>)
        ensures
            match r {
                Some(v) => self@.contains_key(key@) && self@[key@] == v,
                None => !self@.contains_key(key@),
            },
    {
        let k = String::from_str(key);
        let mut i: usize = self.entries.len();
        while i > 0
            invariant
                0 <= i <= self.entries@.len(),
                k@ == key@,
                forall|j: int| i <= j < self.entries@.len() ==> (#[trigger] self.entries@[j]).0@ != key@,
            decreases i,
        {
            let e = &self.entries[i - 1];
            if e.0 == k {
                proof {
                    let s = self.entries@;
                    lemma_entries_map_tail(s, i as int, key@);
                    assert(s.subrange(0, i as int).drop_last() =~= s.subrange(0, i - 1));
                    assert(s.subrange(0, i as int).last() == s[i - 1]);
                }
                return Some(e.1.copied());
            }
            i -= 1;
        }
        proof {
            lemma_entries_map_tail(self.entries@, 0, key@);
            assert(self.entries@.subrange(0, 0) =~= Seq::<(String, GeoValue)>::empty());
        }
        None
    }

    /// Sets `key` to `value`.
    pub fn insert(&mut self, key: String, value: GeoValue)
        ensures
            final(self)@ == old(self)@.insert(key@, value),
    {
        let ghost s = self.entries@;
        self.entries.push((key, value));
        proof {
            assert(self.entries@.drop_last() =~= s);
        }
    }

    /// Removes the value under `key`, if any.
    pub fn remove(&mut self, key: &str)
        ensures
            final(self)@ == old(self)@.remove(key@),
    {
        let ghost s = self.entries@;
        let k = String::from_str(key);
        let mut out: Vec<(String, GeoValue)> = Vec::new();
        let mut i: usize = 0;
        while i < self.entries.len()
            invariant
                self.entries@ == s,
                k@ == key@,
                0 <= i <= s.len(),
                entries_map(out@) == entries_map(s.subrange(0, i as int)).remove(key@),
            decreases s.len() - i,
        {
            let e = &self.entries[i];
            let ghost before = out@;
            if !(e.0 == k) {
                out.push((e.0.clone(), e.1.copied()));
                proof {
                    assert(out@.drop_last() =~= before);
                }
            }
            proof {
                let sub = s.subrange(0, i + 1);
                assert(sub.drop_last() =~= s.subrange(0, i as int));
                assert(entries_map(out@) =~= entries_map(sub).remove(key@));
            }
            i += 1;
        }
        proof {
            assert(s.subrange(0, s.len() as int) =~= s);
        }
        self.entries = out;
    }

    /// Sets every value of `other` in these properties; where both hold a key, the value
    /// of `other` wins.
    pub fn update(&mut self, other: &GeoProperties)
        ensures
            final(self)@ == old(self)@.union_prefer_right(other@),
    {
        let ghost s = self.entries@;
        let mut i: usize = 0;
        while i < other.entries.len()
            invariant
                0 <= i <= other.entries@.len(),
                self.entries@ == s + other.entries@.subrange(0, i as int),
            decreases other.entries@.len() - i,
        {
            let e = &other.entries[i];
            self.entries.push((e.0.clone(), e.1.copied()));
            proof {
                assert(self.entries@ =~= s + other.entries@.subrange(0, i + 1));
            }
            i += 1;
        }
        proof {
            assert(other.entries@.subrange(0, other.entries@.len() as int) =~= other.entries@);
            lemma_entries_map_concat(s, other.entries@);
        }
    }

    /// An owned copy of the properties.
    pub fn copied(&self) -> (r: GeoProperties)
        ensures
            r@ == self@,
    {
        let mut r = GeoProperties::new();
        r.update(self);
        proof {
            assert(Map::<Seq<char>, GeoValue>::empty().union_prefer_right(self@) =~= self@);
        }
        r
    }
}

/// The parameters of the property rewrite.
#[derive(Clone, Debug)]
pub struct Args {
    /// Path of the tabular data source.
    pub data_source_path: String,
    /// The feature property that holds the join key.
    pub id_field_tiles: String,
    /// The data column that holds the join key.
    pub id_field_data: String,
    /// The one layer to rewrite; all layers where absent.
    pub layer_name: Option<String>,
    /// Replace a feature's properties by the row, rather than merge the row into them.
    pub replace_properties: bool,
    /// Drop features whose key has no row.
    pub remove_non_matching: bool,
    /// Keep the key column among the row's properties.
    pub include_id: bool,
}

/// The rows of a data source by their join key; a later row under a key replaces an
/// earlier one.
pub open spec fn keyed_map(s: Seq<(String, GeoProperties)>) -> Map<Seq<char>, Map<Seq<char>, GeoValue>>
    decreases s.len(),
{
    if s.len() == 0 {
        Map::empty()
    } else {
        keyed_map(s.drop_last()).insert(s.last().0@, s.last().1@)
    }
}

/// Data rows by their join key.
#[derive(Clone, Debug)]
pub struct PropertiesMap {
    pub entries: Vec<(String, GeoProperties)>,
}

impl View for PropertiesMap {
    type V = Map<Seq<char>, Map<Seq<char>, GeoValue>>;

    open spec fn view(&self) -> Map<Seq<char>, Map<Seq<char>, GeoValue>> {
        keyed_map(self.entries@)
    }
}

proof fn lemma_keyed_map_tail(s: Seq<(String, GeoProperties)>, m: int, k: Seq<char>)
    requires
        0 <= m <= s.len(),
        forall|j: int| m <= j < s.len() ==> (#[trigger] s[j]).0@ != k,
    ensures
        keyed_map(s).contains_key(k) == keyed_map(s.subrange(0, m)).contains_key(k),
        keyed_map(s).contains_key(k) ==> keyed_map(s)[k] == keyed_map(s.subrange(0, m))[k],
    decreases s.len(),
{
    if s.len() > m {
        lemma_keyed_map_tail(s.drop_last(), m, k);
        assert(s.drop_last().subrange(0, m) =~= s.subrange(0, m));
    } else {
        assert(s.subrange(0, m) =~= s);
    }
}

impl PropertiesMap {
    /// The row under `key`, if any.
    pub fn get(&self, key: &String) -> (r: Option<GeoProperties>)
        ensures
            match r {
                Some(p) => self@.contains_key(key@) && self@[key@] == p@,
                None => !self@.contains_key(key@),
            },
    {
        let mut i: usize = self.entries.len();
        while i > 0
            invariant
                0 <= i <= self.entries@.len(),
                forall|j: int| i <= j < self.entries@.len() ==> (#[trigger] self.entries@[j]).0@ != key@,
            decreases i,
        {
            let e = &self.entries[i - 1];
            if e.0 == *key {
                proof {
                    let s = self.entries@;
                    lemma_keyed_map_tail(s, i as int, key@);
                    assert(s.subrange(0, i as int).drop_last() =~= s.subrange(0, i - 1));
                    assert(s.subrange(0, i as int).last() == s[i - 1]);
                }
                return Some(e.1.copied());
            }
            i -= 1;
        }
        proof {
            lemma_keyed_map_tail(self.entries@, 0, key@);
            assert(self.entries@.subrange(0, 0) =~= Seq::<(String, GeoProperties)>::empty());
        }
        None
    }
}

/// The row that data row `p` gives: without the key column unless it is kept.
pub open spec fn stored_row(p: Map<Seq<char>, GeoValue>, id: Seq<char>, include_id: bool) -> Map<
    Seq<char>,
    GeoValue,
> {
    if include_id {
        p
    } else {
        p.remove(id)
    }
}

/// The map that data rows give, keyed by the text of their key column; a later row
/// under a key replaces an earlier one.
pub open spec fn rows_map(rows: Seq<GeoProperties>, id: Seq<char>, include_id: bool) -> Map<
    Seq<char>,
    Map<Seq<char>, GeoValue>,
>
    decreases rows.len(),
{
    if rows.len() == 0 {
        Map::empty()
    } else {
        rows_map(rows.drop_last(), id, include_id).insert(
            rows.last()@[id].spec_key(),
            stored_row(rows.last()@, id, include_id),
        )
    }
}

/// Builds the map of data rows by the text of their column `id_field_data`, without that
/// column unless `include_id` holds. Fails with `MissingCsvKey` where a row lacks it.
pub fn build_properties_map(rows: Vec<GeoProperties>, id_field_data: &str, include_id: bool) -> (r:
    Result<PropertiesMap, Error>)
    ensures
        r is Err <==> exists|i: int|
            0 <= i < rows@.len() && !(#[trigger] rows@[i])@.contains_key(id_field_data@),
        r matches Err(e) ==> e == Error::MissingCsvKey,
        r matches Ok(m) ==> m@ == rows_map(rows@, id_field_data@, include_id),
{
    let mut entries: Vec<(String, GeoProperties)> = Vec::new();
    let mut i: usize = 0;
    while i < rows.len()
        invariant
            0 <= i <= rows@.len(),
            forall|j: int| 0 <= j < i ==> (#[trigger] rows@[j])@.contains_key(id_field_data@),
            keyed_map(entries@) == rows_map(rows@.subrange(0, i as int), id_field_data@, include_id),
        decreases rows@.len() - i,
    {
        let row = &rows[i];
        let key = match row.get(id_field_data) {
            Some(v) => v.to_key(),
            None => return Err(Error::MissingCsvKey),
        };
        let mut stored = row.copied();
        if !include_id {
            stored.remove(id_field_data);
        }
        let ghost before = entries@;
        entries.push((key, stored));
        proof {
            assert(entries@.drop_last() =~= before);
            assert(rows@.subrange(0, i + 1).drop_last() =~= rows@.subrange(0, i as int));
            assert(rows@.subrange(0, i + 1).last() == rows@[i as int]);
        }
        i += 1;
    }
    proof {
        assert(rows@.subrange(0, rows@.len() as int) =~= rows@);
    }
    Ok(PropertiesMap { entries })
}

/// What the rewrite makes of a feature's properties `p`: unchanged where they lack the
/// id field or where no row matches and non-matching features are kept; dropped where
/// no row matches and they are not kept; else replaced by the row, or merged with it,
/// the row winning.
pub open spec fn updated_properties(
    p: Map<Seq<char>, GeoValue>,
    id_field_tiles: Seq<char>,
    rows: Map<Seq<char>, Map<Seq<char>, GeoValue>>,
    replace_properties: bool,
    remove_non_matching: bool,
) -> Option<Map<Seq<char>, GeoValue>> {
    if !p.contains_key(id_field_tiles) {
        Some(p)
    } else if rows.contains_key(p[id_field_tiles].spec_key()) {
        let row = rows[p[id_field_tiles].spec_key()];
        if replace_properties {
            Some(row)
        } else {
            Some(p.union_prefer_right(row))
        }
    } else if remove_non_matching {
        None
    } else {
        Some(p)
    }
}

/// A layer of vector tile features, each given by its properties.
#[derive(Clone, Debug)]
pub struct FeatureLayer {
    pub name: String,
    pub features: Vec<GeoProperties>,
}

/// The property rewrite, ready to run on tiles.
#[derive(Debug)]
pub struct Runner {
    pub args: Args,
    pub tile_compression: TileCompression,
    pub properties_map: PropertiesMap,
}

/// The features that remain after the rewrite, with their properties.
pub open spec fn updated_layer(
    features: Seq<Map<Seq<char>, GeoValue>>,
    id_field_tiles: Seq<char>,
    rows: Map<Seq<char>, Map<Seq<char>, GeoValue>>,
    replace_properties: bool,
    remove_non_matching: bool,
) -> Seq<Map<Seq<char>, GeoValue>>
    decreases features.len(),
{
    if features.len() == 0 {
        Seq::empty()
    } else {
        let before = updated_layer(
            features.drop_last(),
            id_field_tiles,
            rows,
            replace_properties,
            remove_non_matching,
        );
        match updated_properties(
            features.last(),
            id_field_tiles,
            rows,
            replace_properties,
            remove_non_matching,
        ) {
            Some(p) => before.push(p),
            None => before,
        }
    }
}

impl Runner {
    /// Prepares the rewrite of the tiles of a source with `parameters`: the data rows
    /// are keyed by their id column, and the result is uncompressed vector tiles. Fails
    /// with `InvalidConfig` unless the source holds vector tiles, and with
    /// `MissingCsvKey` where a row lacks the id column.
    pub fn build(args: Args, rows: Vec<GeoProperties>, parameters: TilesReaderParameters) -> (r:
        Result<(Runner, TilesReaderParameters), Error>)
        ensures
            parameters.tile_format != TileFormat::PBF ==> r == Err::<
                (Runner, TilesReaderParameters),
                Error,
            >(Error::InvalidConfig),
            parameters.tile_format == TileFormat::PBF ==> (r is Err <==> exists|i: int|
                0 <= i < rows@.len() && !(#[trigger] rows@[i])@.contains_key(args.id_field_data@)),
            r matches Err(e) ==> e == Error::InvalidConfig || e == Error::MissingCsvKey,
            parameters.tile_format == TileFormat::PBF && r is Err ==> r == Err::<
                (Runner, TilesReaderParameters),
                Error,
            >(Error::MissingCsvKey),
            r matches Ok((runner, p)) ==> {
                &&& runner.args == args
                &&& runner.tile_compression == parameters.tile_compression
                &&& runner.properties_map@ == rows_map(rows@, args.id_field_data@, args.include_id)
                &&& p.tile_compression == TileCompression::Uncompressed
                &&& p.tile_format == parameters.tile_format
                &&& p.bbox_pyramid == parameters.bbox_pyramid
            },
    {
        if parameters.tile_format != TileFormat::PBF {
            return Err(Error::InvalidConfig);
        }
        let properties_map = build_properties_map(rows, args.id_field_data.as_str(), args.include_id)?;
        let tile_compression = parameters.tile_compression;
        let mut parameters = parameters;
        parameters.tile_compression = TileCompression::Uncompressed;
        Ok((Runner { args, tile_compression, properties_map }, parameters))
    }

    /// Rewrites the properties of one feature.
    pub fn update_properties(&self, prop: GeoProperties) -> (r: Option<GeoProperties>)
        ensures
            match updated_properties(
                prop@,
                self.args.id_field_tiles@,
                self.properties_map@,
                self.args.replace_properties,
                self.args.remove_non_matching,
            ) {
                Some(p) => r matches Some(q) && q@ == p,
                None => r is None,
            },
    {
        let id = match prop.get(self.args.id_field_tiles.as_str()) {
            Some(id) => id,
            None => return Some(prop),
        };
        let key = id.to_key();
        match self.properties_map.get(&key) {
            Some(row) => {
                if self.args.replace_properties {
                    Some(row)
                } else {
                    let mut prop = prop;
                    prop.update(&row);
                    Some(prop)
                }
            },
            None => {
                if self.args.remove_non_matching {
                    None
                } else {
                    Some(prop)
                }
            },
        }
    }

    /// Rewrites the features of every layer, or of the named one only.
    pub fn run(&self, layers: Vec<FeatureLayer>) -> (r: Vec<FeatureLayer>)
        ensures
            r@.len() == layers@.len(),
            forall|i: int|
                0 <= i < r@.len() ==> {
                    let l = #[trigger] layers@[i];
                    &&& r@[i].name@ == l.name@
                    &&& (match self.args.layer_name {
                        Some(n) => n@ != l.name@,
                        None => false,
                    }) ==> r@[i].features@.map_values(|f: GeoProperties| f@) == l.features@.map_values(|f: GeoProperties| f@)
                    &&& !(match self.args.layer_name {
                        Some(n) => n@ != l.name@,
                        None => false,
                    }) ==> r@[i].features@.map_values(|f: GeoProperties| f@) == updated_layer(
                        l.features@.map_values(|f: GeoProperties| f@),
                        self.args.id_field_tiles@,
                        self.properties_map@,
                        self.args.replace_properties,
                        self.args.remove_non_matching,
                    )
                },
    {
        let mut out: Vec<FeatureLayer> = Vec::new();
        let mut i: usize = 0;
        while i < layers.len()
            invariant
                0 <= i <= layers@.len(),
                out@.len() == i,
                forall|j: int|
                    0 <= j < i ==> {
                        let l = #[trigger] layers@[j];
                        &&& out@[j].name@ == l.name@
                        &&& (match self.args.layer_name {
                            Some(n) => n@ != l.name@,
                            None => false,
                        }) ==> out@[j].features@.map_values(|f: GeoProperties| f@) == l.features@.map_values(|f: GeoProperties| f@)
                        &&& !(match self.args.layer_name {
                            Some(n) => n@ != l.name@,
                            None => false,
                        }) ==> out@[j].features@.map_values(|f: GeoProperties| f@) == updated_layer(
                            l.features@.map_values(|f: GeoProperties| f@),
                            self.args.id_field_tiles@,
                            self.properties_map@,
                            self.args.replace_properties,
                            self.args.remove_non_matching,
                        )
                    },
            decreases layers@.len() - i,
        {
            let layer = &layers[i];
            let skip = match &self.args.layer_name {
                Some(n) => !(*n == layer.name),
                None => false,
            };
            let features = if skip {
                copy_features(&layer.features)
            } else {
                self.update_features(&layer.features)
            };
            out.push(FeatureLayer { name: layer.name.clone(), features });
            i += 1;
        }
        out
    }

    fn update_features(&self, features: &Vec<GeoProperties>) -> (r: Vec<GeoProperties>)
        ensures
            r@.map_values(|f: GeoProperties| f@) == updated_layer(
                features@.map_values(|f: GeoProperties| f@),
                self.args.id_field_tiles@,
                self.properties_map@,
                self.args.replace_properties,
                self.args.remove_non_matching,
            ),
    {
        let mut r: Vec<GeoProperties> = Vec::new();
        let mut i: usize = 0;
        while i < features.len()
            invariant
                0 <= i <= features@.len(),
                r@.map_values(|f: GeoProperties| f@) == updated_layer(
                    features@.subrange(0, i as int).map_values(|f: GeoProperties| f@),
                    self.args.id_field_tiles@,
                    self.properties_map@,
                    self.args.replace_properties,
                    self.args.remove_non_matching,
                ),
            decreases features@.len() - i,
        {
            let ghost before = r@;
            let updated = self.update_properties(features[i].copied());
            proof {
                let sub = features@.subrange(0, i + 1).map_values(|f: GeoProperties| f@);
                assert(sub.drop_last() =~= features@.subrange(0, i as int).map_values(|f: GeoProperties| f@));
                assert(sub.last() == features@[i as int]@);
            }
            match updated {
                Some(p) => {
                    r.push(p);
                    proof {
                        assert(r@.map_values(|f: GeoProperties| f@) =~= before.map_values(|f: GeoProperties| f@).push(p@));
                    }
                },
                None => {},
            }
            i += 1;
        }
        proof {
            assert(features@.subrange(0, features@.len() as int) =~= features@);
        }
        r
    }
}

/// The property rewrite as a node of a tile pipeline: it runs on the tiles of its
/// source, forwards the source's meta data, and reports uncompressed vector tiles.
#[derive(Debug)]
pub struct Operation {
    runner: Runner,
    parameters: TilesReaderParameters,
    meta: Option<Blob>,
}

impl Operation {
    pub closed spec fn spec_runner(&self) -> &Runner {
        &self.runner
    }

    pub closed spec fn spec_parameters(&self) -> TilesReaderParameters {
        self.parameters
    }

    pub closed spec fn spec_meta(&self) -> Option<Blob> {
        self.meta
    }

    /// Builds the operation on a source with `parameters` and meta data `meta`, from
    /// the rewrite's arguments and the data rows; fails as `Runner::build` does.
    pub fn new(
        args: Args,
        rows: Vec<GeoProperties>,
        parameters: TilesReaderParameters,
        meta: Option<Blob>,
    ) -> (r: Result<Operation, Error>)
        ensures
            parameters.tile_format != TileFormat::PBF ==> (r matches Err(e) && e == Error::InvalidConfig),
            parameters.tile_format == TileFormat::PBF ==> (r is Err <==> exists|i: int|
                0 <= i < rows@.len() && !(#[trigger] rows@[i])@.contains_key(args.id_field_data@)),
            parameters.tile_format == TileFormat::PBF && r is Err ==> (r matches Err(e) && e
                == Error::MissingCsvKey),
            r matches Err(e) ==> e == Error::InvalidConfig || e == Error::MissingCsvKey,
            r matches Ok(op) ==> {
                &&& op.spec_runner().args == args
                &&& op.spec_runner().tile_compression == parameters.tile_compression
                &&& op.spec_runner().properties_map@ == rows_map(rows@, args.id_field_data@, args.include_id)
                &&& op.spec_parameters().tile_compression == TileCompression::Uncompressed
                &&& op.spec_parameters().tile_format == parameters.tile_format
                &&& op.spec_parameters().bbox_pyramid == parameters.bbox_pyramid
                &&& op.spec_meta() == meta
            },
    {
        let (runner, parameters) = Runner::build(args, rows, parameters)?;
        Ok(Operation { runner, parameters, meta })
    }

    /// The reported parameters.
    pub fn get_parameters(&self) -> (r: &TilesReaderParameters)
        ensures
            *r == self.spec_parameters(),
    {
        &self.parameters
    }

    /// The meta data of the source.
    pub fn get_meta(&self) -> (r: Option<Blob>)
        ensures
            match self.spec_meta() {
                Some(m) => r matches Some(b) && b@ == m@,
                None => r is None,
            },
    {
        match &self.meta {
            Some(m) => Some(m.copied()),
            None => None,
        }
    }

    /// The rewrite that runs on each tile.
    pub fn get_runner(&self) -> (r: &Runner)
        ensures
            r == self.spec_runner(),
    {
        &self.runner
    }
}

/// The factory of the property rewrite in a pipeline declaration.
pub struct Factory {}

impl Factory {
    /// The tag that names the operation in a pipeline declaration.
    pub fn get_tag_name(&self) -> (r: &'static str)
        ensures
            r@ == "vectortiles_update_properties"@,
    {
        proof {
            reveal_strlit("vectortiles_update_properties");
        }
        "vectortiles_update_properties"
    }
}

fn copy_features(features: &Vec<GeoProperties>) -> (r: Vec<GeoProperties>)
    ensures
        r@.map_values(|f: GeoProperties| f@) == features@.map_values(|f: GeoProperties| f@),
{
    let mut r: Vec<GeoProperties> = Vec::new();
    let mut i: usize = 0;
    while i < features.len()
        invariant
            0 <= i <= features@.len(),
            r@.len() == i,
            forall|j: int| 0 <= j < i ==> (#[trigger] r@[j])@ == features@[j]@,
        decreases features@.len() - i,
    {
        r.push(features[i].copied());
        i += 1;
    }
    proof {
        assert(r@.map_values(|f: GeoProperties| f@) =~= features@.map_values(|f: GeoProperties| f@));
    }
    r
}

} // verus!
