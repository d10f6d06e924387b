//! JSON values as the library reads them.
//!
//! Parsing is the outside parser's; this module turns what it returns into a tree of the
//! library's own and back, and answers questions about the tree.

use crate::number::{Real64, ONE64, SIGN64};
use crate::text::same;
use vstd::prelude::*;
use vstd::string::*;

verus! {

/// A number as the parser keeps it: a non-negative integer, a negative integer, or the
/// bits of a 64-bit real.
pub enum Num {
    Unsigned(u64),
    Signed(i64),
    Real(u64),
}

/// What a JSON value holds.
pub enum Tree {
    Null,
    Bool(bool),
    Number(Num),
    Text(Seq<char>),
    Array(Seq<Tree>),
    Object(Map<Seq<char>, Tree>),
}

/// The number type of serde_json.
#[verifier::external_type_specification]
#[verifier::external_body]
pub struct ExNumber(serde_json::Number);

/// The value type of serde_json.
#[verifier::external_type_specification]
#[verifier::external_body]
pub struct ExValue(serde_json::Value);

/// What a `serde_json::Number` holds.
pub uninterp spec fn number_of(n: serde_json::Number) -> Num;

/// What a `serde_json::Value` holds.
pub uninterp spec fn tree_of(v: serde_json::Value) -> Tree;

/// What `serde_json::from_slice` reads from a text: the value, or the error's message.
pub uninterp spec fn json_text(bytes: Seq<u8>) -> Result<Tree, Seq<char>>;

/// `serde_json::Number::as_u64`: the value of a non-negative integer, and nothing for any
/// other number.
pub assume_specification[ serde_json::Number::as_u64 ](n: &serde_json::Number) -> (r: Option<u64>)
    ensures
        r == match number_of(*n) {
            Num::Unsigned(u) => Some(u),
            _ => None::<u64>,
        },
;

/// `serde_json::Number::as_i64`: the value of an integer that fits, and nothing for a real.
pub assume_specification[ serde_json::Number::as_i64 ](n: &serde_json::Number) -> (r: Option<i64>)
    ensures
        r == match number_of(*n) {
            Num::Unsigned(u) => if u <= i64::MAX {
                Some(u as i64)
            } else {
                None
            },
            Num::Signed(i) => Some(i),
            Num::Real(_) => None::<i64>,
        },
;

/// The bits of the 64-bit real nearest to a number, as `serde_json::Number::as_f64` gives it.
pub uninterp spec fn nearest_real(n: Num) -> u64;

/// `serde_json::Number::as_f64`, taken by its bits: every number has a nearest real, and a
/// real is its own. What an integer rounds to is left unsaid.
#[verifier::external_body]
fn real_bits(n: &serde_json::Number) -> (r: Option<u64>)
    ensures
        r == Some(nearest_real(number_of(*n))),
        number_of(*n) matches Num::Real(bits) ==> r == Some(bits),
{
    n.as_f64().map(|x| x.to_bits())
}

/// `Clone` of `serde_json::Number`: the same number.
#[verifier::external_body]
fn copy_number(n: &serde_json::Number) -> (r: serde_json::Number)
    ensures
        number_of(r) == number_of(*n),
{
    n.clone()
}

/// `From<u64>` of `serde_json::Number`: the integer.
#[verifier::external_body]
fn unsigned_number(n: u64) -> (r: serde_json::Number)
    ensures
        number_of(r) == Num::Unsigned(n),
{
    serde_json::Number::from(n)
}

/// A value of serde_json with its outermost layer open.
pub enum Opened {
    Null,
    Bool(bool),
    Number(serde_json::Number),
    Text(String),
    Array(Vec<serde_json::Value>),
    Object(Vec<(String, serde_json::Value)>),
}

/// The entries of an object; a later entry of the same key counts.
pub open spec fn value_map(entries: Seq<(String, serde_json::Value)>, n: int) -> Map<Seq<char>, Tree>
    decreases n,
{
    if n <= 0 {
        Map::empty()
    } else {
        value_map(entries, n - 1).insert(entries[n - 1].0@, tree_of(entries[n - 1].1))
    }
}

impl Opened {
    pub open spec fn tree(self) -> Tree {
        match self {
            Opened::Null => Tree::Null,
            Opened::Bool(b) => Tree::Bool(b),
            Opened::Number(n) => Tree::Number(number_of(n)),
            Opened::Text(s) => Tree::Text(s@),
            Opened::Array(items) => Tree::Array(Seq::new(items@.len(), |i: int| tree_of(items@[i]))),
            Opened::Object(entries) => Tree::Object(value_map(entries@, entries@.len() as int)),
        }
    }
}

/// `serde_json::from_slice` into a value: the value that the text holds, or the error's
/// message.
#[verifier::external_body]
fn parse_value(bytes: &[u8]) -> (r: Result<serde_json::Value, String>)
    ensures
        match r {
            Ok(v) => json_text(bytes@) == Ok::<Tree, Seq<char>>(tree_of(v)),
            Err(e) => json_text(bytes@) == Err::<Tree, Seq<char>>(e@),
        },
{
    serde_json::from_slice::<serde_json::Value>(bytes).map_err(|e| e.to_string())
}

/// The text that `serde_json::to_vec` writes for a value, or the error's message. The parser
/// keeps an object's members in the order of their keys, so the text depends on nothing but
/// what the value holds.
pub uninterp spec fn json_bytes(tree: Tree) -> Result<Seq<u8>, Seq<char>>;

/// `serde_json::to_vec` of a value: the text that stands for it, on one line, or the
/// error's message.
#[verifier::external_body]
fn write_value(v: &serde_json::Value) -> (r: Result<Vec<u8>, String>)
    ensures
        match r {
            Ok(bytes) => json_bytes(tree_of(*v)) == Ok::<Seq<u8>, Seq<char>>(bytes@) && !bytes@.contains(10u8),
            Err(e) => json_bytes(tree_of(*v)) == Err::<Seq<u8>, Seq<char>>(e@),
        },
{
    serde_json::to_vec(v).map_err(|e| e.to_string())
}

/// The variants of `serde_json::Value` told apart. An object's keys are distinct.
#[verifier::external_body]
fn open_value(v: serde_json::Value) -> (r: Opened)
    ensures
        r.tree() == tree_of(v),
        r matches Opened::Object(entries) ==> forall|i: int, j: int|
            0 <= i < j < entries@.len() ==> (#[trigger] entries@[i]).0@ != (#[trigger] entries@[j]).0@,
{
    match v {
        serde_json::Value::Null => Opened::Null,
        serde_json::Value::Bool(b) => Opened::Bool(b),
        serde_json::Value::Number(n) => Opened::Number(n),
        serde_json::Value::String(s) => Opened::Text(s),
        serde_json::Value::Array(items) => Opened::Array(items),
        serde_json::Value::Object(map) => Opened::Object(map.into_iter().collect()),
    }
}

/// The variants of `serde_json::Value` put together. Of entries with the same key the last
/// one stays.
#[verifier::external_body]
fn close_value(o: Opened) -> (r: serde_json::Value)
    ensures
        tree_of(r) == o.tree(),
{
    match o {
        Opened::Null => serde_json::Value::Null,
        Opened::Bool(b) => serde_json::Value::Bool(b),
        Opened::Number(n) => serde_json::Value::Number(n),
        Opened::Text(s) => serde_json::Value::String(s),
        Opened::Array(items) => serde_json::Value::Array(items),
        Opened::Object(entries) => serde_json::Value::Object(entries.into_iter().collect()),
    }
}

/// A JSON value.
#[derive(Debug)]
pub enum Json {
    Null,
    Bool(bool),
    Number(serde_json::Number),
    Text(String),
    Array(Vec<Json>),
    Object(Vec<(String, Json)>),
}

/// The entries of an object; a later entry of the same key counts.
pub open spec fn entry_map(entries: Seq<(String, Json)>, n: int) -> Map<Seq<char>, Tree>
    decreases entries, n,
{
    if n <= 0 || n > entries.len() {
        Map::empty()
    } else {
        entry_map(entries, n - 1).insert(entries[n - 1].0@, entries[n - 1].1.tree())
    }
}

impl Json {
    pub open spec fn tree(self) -> Tree
        decreases self, 0int,
    {
        match self {
            Json::Null => Tree::Null,
            Json::Bool(b) => Tree::Bool(b),
            Json::Number(n) => Tree::Number(number_of(n)),
            Json::Text(s) => Tree::Text(s@),
            Json::Array(items) => Tree::Array(
                Seq::new(
                    items@.len(),
                    |i: int|
                        if 0 <= i < items@.len() {
                            items@[i].tree()
                        } else {
                            Tree::Null
                        },
                ),
            ),
            Json::Object(entries) => Tree::Object(entry_map(entries@, entries@.len() as int)),
        }
    }
}

/// The value under a key of an object, where there is one.
pub open spec fn field(tree: Tree, key: Seq<char>) -> Option<Tree> {
    match tree {
        Tree::Object(m) => if m.dom().contains(key) {
            Some(m[key])
        } else {
            None
        },
        _ => None,
    }
}

/// The value under a key of an object, and null where there is none.
pub open spec fn at(tree: Tree, key: Seq<char>) -> Tree {
    match field(tree, key) {
        Some(t) => t,
        None => Tree::Null,
    }
}

/// Whether a number stands for a given small integer.
pub open spec fn stands_for(n: Num, value: int) -> bool {
    match n {
        Num::Unsigned(u) => u == value,
        Num::Signed(i) => i == value,
        Num::Real(bits) => if value == 0 {
            bits == 0 || bits == SIGN64
        } else {
            bits == ONE64
        },
    }
}

/// A map built from distinct keys holds each entry.
proof fn lemma_value_map(entries: Seq<(String, serde_json::Value)>, n: int, i: int)
    requires
        0 <= i < n <= entries.len(),
        forall|i: int, j: int|
            0 <= i < j < entries.len() ==> (#[trigger] entries[i]).0@ != (#[trigger] entries[j]).0@,
    ensures
        value_map(entries, n).dom().contains(entries[i].0@),
        value_map(entries, n)[entries[i].0@] == tree_of(entries[i].1),
    decreases n,
{
    if i < n - 1 {
        lemma_value_map(entries, n - 1, i);
        assert(entries[i].0@ != entries[n - 1].0@);
    }
}

/// The entries of an object have finitely many keys.
proof fn lemma_value_map_finite(entries: Seq<(String, serde_json::Value)>, n: int)
    ensures
        value_map(entries, n).dom().finite(),
    decreases n,
{
    if n > 0 {
        lemma_value_map_finite(entries, n - 1);
    }
}

/// The map of the first entries does not depend on those behind them.
proof fn lemma_entry_map_prefix(a: Seq<(String, Json)>, b: Seq<(String, Json)>, n: int)
    requires
        0 <= n <= a.len(),
        n <= b.len(),
        forall|i: int| 0 <= i < n ==> a[i] == b[i],
    ensures
        entry_map(a, n) == entry_map(b, n),
    decreases n,
{
    if n > 0 {
        lemma_entry_map_prefix(a, b, n - 1);
    }
}

/// The key of every entry is a key of the map.
proof fn lemma_entry_kept(entries: Seq<(String, Json)>, n: int, i: int)
    requires
        0 <= i < n <= entries.len(),
    ensures
        entry_map(entries, n).dom().contains(entries[i].0@),
    decreases n,
{
    if i < n - 1 {
        lemma_entry_kept(entries, n - 1, i);
    }
}

/// Entries with the same keys and values give the same map.
proof fn lemma_same_map(a: Seq<(String, Json)>, b: Seq<(String, serde_json::Value)>, n: int)
    requires
        0 <= n <= a.len(),
        n <= b.len(),
        forall|i: int| 0 <= i < n ==> (#[trigger] a[i]).0@ == b[i].0@ && a[i].1.tree() == tree_of(b[i].1),
    ensures
        entry_map(a, n) == value_map(b, n),
    decreases n,
{
    if n > 0 {
        lemma_same_map(a, b, n - 1);
        assert(a[n - 1].0@ == b[n - 1].0@);
    }
}

/// The library's tree of a value of serde_json.
fn lift(value: serde_json::Value) -> (r: Json)
    ensures
        r.tree() == tree_of(value),
    decreases tree_of(value),
{
    let opened = open_value(value);
    let ghost whole = opened.tree();
    match opened {
        Opened::Null => Json::Null,
        Opened::Bool(b) => Json::Bool(b),
        Opened::Number(n) => Json::Number(n),
        Opened::Text(s) => Json::Text(s),
        Opened::Array(items) => {
            let ghost all = items@;
            let mut out: Vec<Json> = Vec::new();
            for item in it: items
                invariant
                    it.seq() == all,
                    whole == tree_of(value),
                    whole == Tree::Array(Seq::new(all.len(), |i: int| tree_of(all[i]))),
                    out@.len() == it.index(),
                    forall|i: int| 0 <= i < out@.len() ==> (#[trigger] out@[i]).tree() == tree_of(all[i]),
            {
                proof {
                    let trees = whole->Array_0;
                    assert(trees[it.index() as int] == tree_of(item));
                    assert(decreases_to!(whole => trees[it.index() as int]));
                }
                out.push(lift(item));
            }
            let r = Json::Array(out);
            assert(r.tree()->Array_0 =~= whole->Array_0);
            r
        },
        Opened::Object(entries) => {
            let ghost all = entries@;
            proof {
                lemma_value_map_finite(all, all.len() as int);
            }
            let mut out: Vec<(String, Json)> = Vec::new();
            for entry in it: entries
                invariant
                    it.seq() == all,
                    whole == tree_of(value),
                    whole == Tree::Object(value_map(all, all.len() as int)),
                    value_map(all, all.len() as int).dom().finite(),
                    forall|i: int, j: int|
                        0 <= i < j < all.len() ==> (#[trigger] all[i]).0@ != (#[trigger] all[j]).0@,
                    out@.len() == it.index(),
                    forall|i: int|
                        0 <= i < out@.len() ==> (#[trigger] out@[i]).0@ == all[i].0@ && out@[i].1.tree() == tree_of(
                            all[i].1,
                        ),
            {
                proof {
                    let m = whole->Object_0;
                    lemma_value_map(all, all.len() as int, it.index() as int);
                    assert(m[entry.0@] == tree_of(entry.1));
                    assert(decreases_to!(whole => m[entry.0@]));
                }
                let (key, inner) = entry;
                out.push((key, lift(inner)));
            }
            proof {
                lemma_same_map(out@, all, all.len() as int);
            }
            Json::Object(out)
        },
    }
}

/// The value of serde_json that holds a tree of the library.
fn lower(json: &Json) -> (r: serde_json::Value)
    ensures
        tree_of(r) == json.tree(),
    decreases json,
{
    match json {
        Json::Null => close_value(Opened::Null),
        Json::Bool(b) => close_value(Opened::Bool(*b)),
        Json::Number(n) => close_value(Opened::Number(copy_number(n))),
        Json::Text(s) => close_value(Opened::Text(s.clone())),
        Json::Array(items) => {
            let mut out: Vec<serde_json::Value> = Vec::new();
            let mut i: usize = 0;
            while i < items.len()
                invariant
                    i <= items@.len(),
                    *json == Json::Array(*items),
                    out@.len() == i,
                    forall|k: int| 0 <= k < i ==> tree_of(#[trigger] out@[k]) == items@[k].tree(),
                decreases items@.len() - i,
            {
                assert(decreases_to!(*json => json->Array_0));
                assert(decreases_to!(items => items@));
                assert(decreases_to!(items@ => items@[i as int]));
                out.push(lower(&items[i]));
                i = i + 1;
            }
            let opened = Opened::Array(out);
            assert(opened.tree()->Array_0 =~= json.tree()->Array_0);
            close_value(opened)
        },
        Json::Object(entries) => {
            let mut out: Vec<(String, serde_json::Value)> = Vec::new();
            let mut i: usize = 0;
            while i < entries.len()
                invariant
                    i <= entries@.len(),
                    *json == Json::Object(*entries),
                    out@.len() == i,
                    forall|k: int|
                        0 <= k < i ==> entries@[k].0@ == (#[trigger] out@[k]).0@ && entries@[k].1.tree() == tree_of(
                            out@[k].1,
                        ),
                decreases entries@.len() - i,
            {
                assert(decreases_to!(*json => json->Object_0));
                assert(decreases_to!(entries => entries@));
                assert(decreases_to!(entries@ => entries@[i as int]));
                assert(decreases_to!(entries@[i as int] => entries@[i as int].1));
                let inner = lower(&entries[i].1);
                out.push((entries[i].0.clone(), inner));
                i = i + 1;
            }
            proof {
                assert forall|k: int| 0 <= k < out@.len() implies (#[trigger] entries@[k]).0@ == out@[k].0@
                    && entries@[k].1.tree() == tree_of(out@[k].1) by {
                    assert(entries@[k].0@ == out@[k].0@);
                }
                lemma_same_map(entries@, out@, out@.len() as int);
            }
            close_value(Opened::Object(out))
        },
    }
}

/// Reads a JSON text.
pub fn parse(bytes: &[u8]) -> (r: Result<Json, String>)
    ensures
        match r {
            Ok(json) => json_text(bytes@) == Ok::<Tree, Seq<char>>(json.tree()),
            Err(e) => json_text(bytes@) == Err::<Tree, Seq<char>>(e@),
        },
{
    match parse_value(bytes) {
        Ok(value) => Ok(lift(value)),
        Err(e) => Err(e),
    }
}

/// Writes a JSON text, on one line.
pub fn write(json: &Json) -> (r: Result<Vec<u8>, String>)
    ensures
        match r {
            Ok(bytes) => json_bytes(json.tree()) == Ok::<Seq<u8>, Seq<char>>(bytes@) && !bytes@.contains(10u8),
            Err(e) => json_bytes(json.tree()) == Err::<Seq<u8>, Seq<char>>(e@),
        },
{
    write_value(&lower(json))
}

/// The value of serde_json that a template is rendered with.
pub(crate) fn outside(json: &Json) -> (r: serde_json::Value)
    ensures
        tree_of(r) == json.tree(),
{
    lower(json)
}

impl Json {
    /// A text value.
    pub fn text(value: &str) -> (r: Json)
        ensures
            r.tree() == Tree::Text(value@),
    {
        Json::Text(value.to_owned())
    }

    /// An integer value.
    pub fn unsigned(value: u64) -> (r: Json)
        ensures
            r.tree() == Tree::Number(Num::Unsigned(value)),
    {
        Json::Number(unsigned_number(value))
    }

    /// An object without entries.
    pub fn object() -> (r: Json)
        ensures
            r is Object,
            r.tree() == Tree::Object(Map::empty()),
    {
        let entries: Vec<(String, Json)> = Vec::new();
        assert(entry_map(entries@, 0) == Map::<Seq<char>, Tree>::empty());
        Json::Object(entries)
    }

    /// A copy of the value.
    pub fn copy(&self) -> (r: Json)
        ensures
            r.tree() == self.tree(),
    {
        lift(lower(self))
    }

    /// Puts a value under a key of an object, in place of what stood there.
    pub fn put(&mut self, key: &str, value: Json)
        requires
            old(self).tree() is Object,
        ensures
            final(self).tree() == Tree::Object(old(self).tree()->Object_0.insert(key@, value.tree())),
    {
        let ghost tree = value.tree();
        match self {
            Json::Object(entries) => {
                let ghost all = entries@;
                entries.push((key.to_owned(), value));
                proof {
                    lemma_entry_map_prefix(all, entries@, all.len() as int);
                    assert(entry_map(entries@, entries@.len() as int) == entry_map(all, all.len() as int).insert(key@, tree));
                }
            },
            _ => {},
        }
    }

    /// The object with one more entry.
    pub fn with(self, key: &str, value: Json) -> (r: Json)
        requires
            self.tree() is Object,
        ensures
            r.tree() == Tree::Object(self.tree()->Object_0.insert(key@, value.tree())),
    {
        let mut r = self;
        r.put(key, value);
        r
    }

    /// The value under a key of an object.
    pub fn get(&self, key: &str) -> (r: Option<&Json>)
        ensures
            match r {
                Some(json) => field(self.tree(), key@) == Some(json.tree()),
                None => field(self.tree(), key@) is None,
            },
    {
        match self {
            Json::Object(entries) => {
                let mut i: usize = entries.len();
                while i > 0
                    invariant
                        i <= entries@.len(),
                        *self == Json::Object(*entries),
                        field(Tree::Object(entry_map(entries@, i as int)), key@) == field(self.tree(), key@),
                    decreases i,
                {
                    i = i - 1;
                    if same(entries[i].0.as_str(), key) {
                        return Some(&entries[i].1);
                    }
                }
                None
            },
            _ => None,
        }
    }

    /// Whether nothing, or null, stands under a key.
    pub fn null_at(&self, key: &str) -> (r: bool)
        ensures
            r == (at(self.tree(), key@) is Null),
    {
        match self.get(key) {
            Some(Json::Null) => true,
            Some(_) => false,
            None => true,
        }
    }

    /// The text under a key.
    pub fn text_at(&self, key: &str) -> (r: Option<&str>)
        ensures
            match r {
                Some(text) => at(self.tree(), key@) == Tree::Text(text@),
                None => !(at(self.tree(), key@) is Text),
            },
    {
        match self.get(key) {
            Some(Json::Text(text)) => Some(text.as_str()),
            _ => None,
        }
    }

    /// Whether the value is an object with one entry, the given text under the given key.
    pub fn holds_only(&self, key: &str, text: &str) -> (r: bool)
        ensures
            r == (self.tree() == Tree::Object(Map::<Seq<char>, Tree>::empty().insert(key@, Tree::Text(text@)))),
    {
        match self {
            Json::Object(entries) => {
                let mut i: usize = 0;
                while i < entries.len()
                    invariant
                        i <= entries@.len(),
                        *self == Json::Object(*entries),
                        entry_map(entries@, i as int) == if i == 0 {
                            Map::<Seq<char>, Tree>::empty()
                        } else {
                            Map::<Seq<char>, Tree>::empty().insert(key@, entries@[i - 1].1.tree())
                        },
                    decreases entries@.len() - i,
                {
                    if !same(entries[i].0.as_str(), key) {
                        proof {
                            lemma_entry_kept(entries@, entries@.len() as int, i as int);
                            let one = Map::<Seq<char>, Tree>::empty().insert(key@, Tree::Text(text@));
                            assert(!one.dom().contains(entries@[i as int].0@));
                        }
                        return false;
                    }
                    proof {
                        assert(entry_map(entries@, i + 1) =~= Map::<Seq<char>, Tree>::empty().insert(
                            key@,
                            entries@[i as int].1.tree(),
                        ));
                    }
                    i = i + 1;
                }
                let ghost one = Map::<Seq<char>, Tree>::empty().insert(key@, Tree::Text(text@));
                assert(one.dom().contains(key@));
                if entries.len() == 0 {
                    assert(!self.tree()->Object_0.dom().contains(key@));
                    return false;
                }
                assert(one[key@] == Tree::Text(text@));
                assert(self.tree()->Object_0[key@] == entries@[i - 1].1.tree());
                entries[i - 1].1.is_text(text)
            },
            _ => false,
        }
    }

    /// Whether the value is the given text.
    pub fn is_text(&self, text: &str) -> (r: bool)
        ensures
            r == (self.tree() == Tree::Text(text@)),
    {
        match self {
            Json::Text(own) => same(own.as_str(), text),
            _ => false,
        }
    }

    pub fn is_object(&self) -> (r: bool)
        ensures
            r == (self.tree() is Object),
    {
        match self {
            Json::Object(_) => true,
            _ => false,
        }
    }

    pub fn is_null(&self) -> (r: bool)
        ensures
            r == (self.tree() is Null),
    {
        match self {
            Json::Null => true,
            _ => false,
        }
    }

    pub fn as_bool(&self) -> (r: Option<bool>)
        ensures
            r == match self.tree() {
                Tree::Bool(b) => Some(b),
                _ => None::<bool>,
            },
    {
        match self {
            Json::Bool(b) => Some(*b),
            _ => None,
        }
    }

    /// The value of a non-negative integer.
    pub fn as_u64(&self) -> (r: Option<u64>)
        ensures
            r == match self.tree() {
                Tree::Number(Num::Unsigned(u)) => Some(u),
                _ => None::<u64>,
            },
    {
        match self {
            Json::Number(n) => n.as_u64(),
            _ => None,
        }
    }

    /// The 64-bit real nearest to a number.
    pub fn as_real(&self) -> (r: Option<Real64>)
        ensures
            match r {
                Some(x) => self.tree() matches Tree::Number(n) && x.bits == nearest_real(n) && (n matches Num::Real(
                    bits,
                ) ==> bits == x.bits),
                None => !(self.tree() is Number),
            },
    {
        match self {
            Json::Number(n) => match real_bits(n) {
                Some(bits) => Some(Real64 { bits }),
                None => None,
            },
            _ => None,
        }
    }

    /// Whether the value is the number zero, or one, however it is written.
    pub fn is_number(&self, one: bool) -> (r: bool)
        ensures
            r == (self.tree() matches Tree::Number(n) && stands_for(
                n,
                if one {
                    1
                } else {
                    0
                },
            )),
    {
        match self {
            Json::Number(n) => {
                let wanted: u64 = if one {
                    1
                } else {
                    0
                };
                match n.as_u64() {
                    Some(u) => u == wanted,
                    None => match n.as_i64() {
                        Some(i) => i as i128 == wanted as i128,
                        None => match real_bits(n) {
                            Some(bits) => if one {
                                bits == ONE64
                            } else {
                                bits == 0 || bits == SIGN64
                            },
                            None => false,
                        },
                    },
                }
            },
            _ => false,
        }
    }
}

} // verus!
