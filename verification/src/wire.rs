//! `wire` and `unwire`: make `captrack` a dependency of every crate of a
//! workspace, and take it away again.
//!
//! The root manifest gets `captrack` in `[workspace.dependencies]`, either
//! `{ path = "...", features = ["telemetry"] }` or `{ version = "0.1",
//! features = ["telemetry"] }`; every member gets `captrack = { workspace =
//! true }` in `[dependencies]`.  A manifest that already names `captrack`
//! is left alone.  Every manifest that changed is recorded with its hashes
//! and former content, so that `unwire` can restore it exactly, after
//! checking that nobody edited it since.
use vstd::prelude::*;
use toml_edit::{Array, DocumentMut, InlineTable, Item, Table, TomlError, Value};
use crate::digest::{hex_sha256, hex_sha256_spec};
use crate::lint_apply::bytes_of;
use crate::text::{dec, push_dec, push_str, str_eq, string_of};

verus! {

/// The only manifest version this code reads and writes.
pub const WIRE_MANIFEST_VERSION: u32 = 1;

/// One `Cargo.toml` changed by `wire`.
#[derive(Debug, Clone, PartialEq, Eq)]
pub struct WireFileEntry {
    pub file: String,
    /// SHA-256 (lowercase hex) of the file before `wire`.
    pub sha256_before: String,
    /// The whole content before `wire`, for an exact revert.
    pub content_before: String,
    /// SHA-256 (lowercase hex) of the file after `wire`.
    pub sha256_after: String,
}

/// Where the `captrack` dependency comes from.
#[derive(Debug, Clone, PartialEq, Eq)]
pub enum WireSource {
    /// A local crate: `{ path = "..." }`.
    Path { path: String },
    /// The published crate: `{ version = "..." }`.
    Version { version: String },
}

/// The record written by `wire`.
#[derive(Debug, Clone, PartialEq, Eq)]
pub struct WireManifest {
    pub version: u32,
    pub source: WireSource,
    pub files: Vec<WireFileEntry>,
}

/// The arguments of `wire`.
pub struct WireArgs {
    pub workspace_root: String,
    /// A local `captrack` crate to depend on; the published one otherwise.
    pub captrack_path: Option<String>,
}

/// The arguments of `unwire`.
pub struct UnwireArgs {
    pub workspace_root: String,
    /// The manifest to revert; the default one of the workspace otherwise.
    pub manifest: Option<String>,
}

/// The version of the published crate that `wire` depends on.
pub open spec fn published_version() -> Seq<char> {
    "0.1"@
}

/// The dependency source: the local crate at `abs_path` (already made
/// absolute and checked) when one was given, the published crate otherwise.
pub fn wire_source(abs_path: Option<&str>) -> (r: WireSource)
    ensures
        match abs_path {
            Some(p) => (r matches WireSource::Path { path } && path@ == p@),
            None => r is Version && r->version@ == published_version(),
        },
{
    match abs_path {
        Some(p) => WireSource::Path { path: p.to_string() },
        None => WireSource::Version { version: "0.1".to_string() },
    }
}

/// The manifest `unwire` reads: the one given, or the workspace default.
pub fn unwire_manifest_path(args: &UnwireArgs) -> (r: String)
    ensures
        match &args.manifest {
            Some(m) => r@ == m@,
            None => r@ == crate::paths::pgo_file_spec(args.workspace_root@, "last-wire.json"@),
        },
{
    match &args.manifest {
        Some(m) => m.clone(),
        None => crate::paths::default_wire_manifest_path(args.workspace_root.as_str()),
    }
}

#[verifier::external_type_specification]
#[verifier::external_body]
pub struct ExDocumentMut(DocumentMut);

#[verifier::external_type_specification]
#[verifier::external_body]
pub struct ExTomlError(TomlError);

#[verifier::external_type_specification]
#[verifier::external_body]
pub struct ExValue(Value);

#[verifier::external_type_specification]
#[verifier::external_body]
pub struct ExItem(Item);

#[verifier::external_type_specification]
#[verifier::external_body]
pub struct ExTable(Table);

#[verifier::external_type_specification]
#[verifier::external_body]
pub struct ExInlineTable(InlineTable);

#[verifier::external_type_specification]
#[verifier::external_body]
pub struct ExArray(Array);

/// What a TOML document holds under a key path: a table (an
/// `Item::Table`, written with a header or with dotted keys), an inline
/// table (its entries have paths of their own below it), a string, a
/// boolean, an array value (each element's text, `None` for an element
/// that is not a string), or any other item (numbers, dates, arrays of
/// tables).
pub enum TomlNode {
    Table,
    Inline,
    Str(Seq<char>),
    Bool(bool),
    Array(Seq<Option<Seq<char>>>),
    Value,
}

/// The contents of a TOML table as key paths: every path of keys that
/// leads through tables and inline tables to an item, with what the item
/// is.  Entries whose item is `Item::None` hold nothing and have no path.
pub open spec fn path_in(k: Seq<char>, p: Seq<Seq<char>>) -> Seq<Seq<char>> {
    seq![k] + p
}

/// The paths under key `k` of `m`, with `k` taken off: the empty path is
/// what `k` itself holds.
pub open spec fn under_key(m: Map<Seq<Seq<char>>, TomlNode>, k: Seq<char>) -> Map<Seq<Seq<char>>, TomlNode> {
    Map::new(|p: Seq<Seq<char>>| m.contains_key(path_in(k, p)), |p: Seq<Seq<char>>| m[path_in(k, p)])
}

/// The empty key path: what an item itself is.
pub open spec fn no_path() -> Seq<Seq<char>> {
    Seq::empty()
}

/// Whether path `p` starts with key `k`.
pub open spec fn starts_with_key(p: Seq<Seq<char>>, k: Seq<char>) -> bool {
    p.len() > 0 && p[0] == k
}

/// `m` with what is under key `k` replaced by `s` (the paths of `s` put
/// under `k`).
pub open spec fn graft(
    m: Map<Seq<Seq<char>>, TomlNode>,
    k: Seq<char>,
    s: Map<Seq<Seq<char>>, TomlNode>,
) -> Map<Seq<Seq<char>>, TomlNode> {
    Map::new(
        |p: Seq<Seq<char>>|
            if starts_with_key(p, k) {
                s.contains_key(p.drop_first())
            } else {
                m.contains_key(p)
            },
        |p: Seq<Seq<char>>|
            if starts_with_key(p, k) {
                s[p.drop_first()]
            } else {
                m[p]
            },
    )
}

/// Putting back under `k` what was there leaves the paths as they were.
pub proof fn lemma_graft_same(m: Map<Seq<Seq<char>>, TomlNode>, k: Seq<char>)
    ensures
        graft(m, k, under_key(m, k)) == m,
{
    assert forall|p: Seq<Seq<char>>| starts_with_key(p, k) implies path_in(k, p.drop_first()) == p by {
        assert(path_in(k, p.drop_first()) =~= p);
    }
    assert(graft(m, k, under_key(m, k)) =~= m);
}

/// Whether `toml_edit` accepts a text as a TOML document.
pub uninterp spec fn toml_parses(text: Seq<char>) -> bool;

/// The key paths of the document `toml_edit` parses a text into.
pub uninterp spec fn toml_doc(text: Seq<char>) -> Map<Seq<Seq<char>>, TomlNode>;

/// The key paths a document holds.
pub uninterp spec fn doc_paths(d: DocumentMut) -> Map<Seq<Seq<char>>, TomlNode>;

/// The key paths a table holds.
pub uninterp spec fn table_paths(t: Table) -> Map<Seq<Seq<char>>, TomlNode>;

/// The key paths an item holds: the empty path for the item itself (none
/// for `Item::None`), and the paths of its entries after it when it is a
/// table or an inline table.
pub uninterp spec fn item_paths(i: Item) -> Map<Seq<Seq<char>>, TomlNode>;

/// The key paths a value holds: the empty path for the value itself, and
/// the paths of its entries after it when it is an inline table.
pub uninterp spec fn value_paths(v: Value) -> Map<Seq<Seq<char>>, TomlNode>;

/// The key paths of the entries of an inline table (the table itself has
/// none).
pub uninterp spec fn inline_paths(t: InlineTable) -> Map<Seq<Seq<char>>, TomlNode>;

/// The text `Display` writes for a document.
pub uninterp spec fn doc_text(d: DocumentMut) -> Seq<char>;

/// `DocumentMut::from_str`: the editable document of a TOML text, or the
/// parse error.  Claims that it succeeds exactly on the texts that
/// `toml_parses` names, and that the document holds the paths `toml_doc`
/// names.
#[verifier::external_body]
fn parse_document(text: &str) -> (r: Result<DocumentMut, TomlError>)
    ensures
        r is Ok <==> toml_parses(text@),
        r matches Ok(d) ==> doc_paths(d) == toml_doc(text@),
{
    text.parse::<DocumentMut>()
}

/// `TomlError`'s `Display`: the parse error as text.
#[verifier::external_body]
fn toml_error_text(e: &TomlError) -> (r: String) {
    e.to_string()
}

/// `DocumentMut::as_table`: the root table of a document, which holds what
/// the document holds.
#[verifier::external_body]
fn document_root(doc: &DocumentMut) -> (r: &Table)
    ensures
        table_paths(*r) == doc_paths(*doc),
{
    doc.as_table()
}

/// `DocumentMut::as_table_mut`: the root table of a document, to edit; the
/// document holds what the root table is left holding.
#[verifier::external_body]
fn document_root_mut(doc: &mut DocumentMut) -> (r: &mut Table)
    ensures
        table_paths(*r) == doc_paths(*old(doc)),
        doc_paths(*final(doc)) == table_paths(*final(r)),
{
    doc.as_table_mut()
}

/// `Table::get`: the item under a key; there is one exactly when the key
/// holds an item, and it holds what is under the key.
#[verifier::external_body]
fn table_get<'a>(t: &'a Table, key: &str) -> (r: Option<&'a Item>)
    ensures
        r is Some <==> table_paths(*t).contains_key(seq![key@]),
        r matches Some(i) ==> item_paths(*i) == under_key(table_paths(*t), key@),
{
    t.get(key)
}

/// `Table::get_mut`: the item under a key, to edit; there is one exactly
/// when the key holds an item.  What is under the key afterwards is what
/// the item is left holding; without an item, the table is left alone.
#[verifier::external_body]
fn table_get_mut<'a>(t: &'a mut Table, key: &str) -> (r: Option<&'a mut Item>)
    ensures
        r is Some <==> table_paths(*old(t)).contains_key(seq![key@]),
        r matches Some(i) ==> item_paths(*i) == under_key(table_paths(*old(t)), key@) && table_paths(*final(t))
            == graft(table_paths(*old(t)), key@, item_paths(*final(i))),
        r is None ==> table_paths(*final(t)) == table_paths(*old(t)),
{
    t.get_mut(key)
}

/// `Table::contains_key`: whether the key holds an item.
#[verifier::external_body]
fn table_contains_key(t: &Table, key: &str) -> (r: bool)
    ensures
        r == table_paths(*t).contains_key(seq![key@]),
{
    t.contains_key(key)
}

/// `Table::insert`: put an item under a key (the one it replaces is
/// dropped); what is under the key is then what the item holds, and the
/// other keys are left as they were.
#[verifier::external_body]
fn table_insert(t: &mut Table, key: &str, item: Item)
    ensures
        table_paths(*final(t)) == graft(table_paths(*old(t)), key@, item_paths(item)),
{
    t.insert(key, item);
}

/// `Item::as_table`: the item as a table, exactly when it is one.
#[verifier::external_body]
fn item_as_table(item: &Item) -> (r: Option<&Table>)
    ensures
        r is Some <==> item_paths(*item).get(no_path()) == Some(TomlNode::Table),
        r matches Some(t) ==> table_paths(*t) == item_paths(*item).remove(no_path()),
{
    item.as_table()
}

/// `Item::as_table_mut`: the item as a table to edit, exactly when it is
/// one; the item is then left holding what the table is left holding.
#[verifier::external_body]
fn item_as_table_mut(item: &mut Item) -> (r: Option<&mut Table>)
    ensures
        r is Some <==> item_paths(*old(item)).get(no_path()) == Some(TomlNode::Table),
        r matches Some(t) ==> table_paths(*t) == item_paths(*old(item)).remove(no_path())
            && item_paths(*final(item)) == table_paths(*final(t)).insert(no_path(), TomlNode::Table),
        r is None ==> item_paths(*final(item)) == item_paths(*old(item)),
{
    item.as_table_mut()
}

/// `toml_edit::table`: an empty table item.
#[verifier::external_body]
fn empty_table() -> (r: Item)
    ensures
        item_paths(r) == map![no_path() => TomlNode::Table],
{
    toml_edit::table()
}

/// `Item::from` a value: the value as an item, which holds what the value
/// holds.
#[verifier::external_body]
fn value_item(v: Value) -> (r: Item)
    ensures
        item_paths(r) == value_paths(v),
{
    Item::from(v)
}

/// `Value::from(&str)`: a string value.
#[verifier::external_body]
fn str_value(text: &str) -> (r: Value)
    ensures
        value_paths(r) == lone(TomlNode::Str(text@)),
        value_text(r) == Some(text@),
{
    Value::from(text)
}

/// `Value::from(bool)`: a boolean value.
#[verifier::external_body]
fn bool_value(b: bool) -> (r: Value)
    ensures
        value_paths(r) == lone(TomlNode::Bool(b)),
{
    Value::from(b)
}

/// `Array::new`: an empty array.
#[verifier::external_body]
fn new_array() -> (r: Array)
    ensures
        array_strs(r) == Seq::<Option<Seq<char>>>::empty(),
{
    Array::new()
}

/// `Array::push`: append a value.
#[verifier::external_body]
fn array_push(a: &mut Array, v: Value)
    ensures
        array_strs(*final(a)) == array_strs(*old(a)).push(value_text(v)),
{
    a.push(v);
}

/// `Value::from(Array)`: an array value.
#[verifier::external_body]
fn array_value(a: Array) -> (r: Value)
    ensures
        value_paths(r) == lone(TomlNode::Array(array_strs(a))),
{
    Value::from(a)
}

/// No key paths at all.
pub open spec fn no_entries() -> Map<Seq<Seq<char>>, TomlNode> {
    Map::empty()
}

/// `InlineTable::new`: an empty inline table.
#[verifier::external_body]
fn new_inline_table() -> (r: InlineTable)
    ensures
        inline_paths(r) == no_entries(),
{
    InlineTable::new()
}

/// `InlineTable::insert`: put a value under a key (the one it replaces is
/// dropped); what is under the key is then what the value holds, and the
/// other keys are left as they were.
#[verifier::external_body]
fn inline_insert(t: &mut InlineTable, key: &str, v: Value)
    ensures
        inline_paths(*final(t)) == graft(inline_paths(*old(t)), key@, value_paths(v)),
{
    t.insert(key, v);
}

/// `Value::from(InlineTable)`: an inline-table value, holding the table's
/// entries.
#[verifier::external_body]
fn inline_value(t: InlineTable) -> (r: Value)
    ensures
        value_paths(r) == inline_paths(t).insert(no_path(), TomlNode::Inline),
{
    Value::from(t)
}

/// `DocumentMut`'s `Display`: the document as TOML text.  Only that the
/// text is the one `doc_text` names is claimed; whether it reads back into
/// the same document is checked by the callers, by parsing it again.
#[verifier::external_body]
fn render_document(doc: &DocumentMut) -> (r: String)
    ensures
        r@ == doc_text(*doc),
{
    doc.to_string()
}

/// The table under `key`: `None` when there is none or the item is not a
/// table.
fn sub_table<'a>(t: &'a Table, key: &str) -> (r: Option<&'a Table>)
    ensures
        r is Some <==> under_key(table_paths(*t), key@).get(no_path()) == Some(TomlNode::Table),
        r matches Some(x) ==> table_paths(*x) == under_key(table_paths(*t), key@).remove(no_path()),
{
    match table_get(t, key) {
        Some(item) => item_as_table(item),
        None => {
            assert(!under_key(table_paths(*t), key@).contains_key(no_path())) by {
                assert(path_in(key@, no_path()) =~= seq![key@]);
            }
            None
        },
    }
}

/// The table under `key`, to edit: `None` when there is none or the item
/// is not a table.  What is under the key afterwards is what the table is
/// left holding.
fn sub_table_mut<'a>(t: &'a mut Table, key: &str) -> (r: Option<&'a mut Table>)
    ensures
        r is Some <==> under_key(table_paths(*old(t)), key@).get(no_path()) == Some(TomlNode::Table),
        r matches Some(x) ==> table_paths(*x) == under_key(table_paths(*old(t)), key@).remove(no_path())
            && table_paths(*final(t)) == graft(
            table_paths(*old(t)),
            key@,
            table_paths(*final(x)).insert(no_path(), TomlNode::Table),
        ),
        r is None ==> table_paths(*final(t)) == table_paths(*old(t)),
{
    match table_get_mut(t, key) {
        Some(item) => {
            proof {
                lemma_graft_same(table_paths(*old(t)), key@);
            }
            item_as_table_mut(item)
        },
        None => {
            assert(!under_key(table_paths(*old(t)), key@).contains_key(no_path())) by {
                assert(path_in(key@, no_path()) =~= seq![key@]);
            }
            None
        },
    }
}

/// What a place says of `key`: `None` when the place is not a table,
/// else whether it has the key.
fn key_state(t: Option<&Table>, key: &str) -> (r: Option<bool>)
    ensures
        r == match t {
            Some(x) => Some(table_paths(*x).contains_key(seq![key@])),
            None => None::<bool>,
        },
{
    match t {
        Some(t) => Some(table_contains_key(t, key)),
        None => None,
    }
}

/// The elements of an array, each as its text (`None` for one that is not
/// a string).
pub uninterp spec fn array_strs(a: Array) -> Seq<Option<Seq<char>>>;

/// The text of a value, when it is a string.
pub uninterp spec fn value_text(v: Value) -> Option<Seq<char>>;

/// `Item::as_array`: the item as an array, exactly when it is an array
/// value; the item's node is then that array's elements.
#[verifier::external_body]
fn item_as_array(item: &Item) -> (r: Option<&Array>)
    ensures
        r is Some <==> item_paths(*item).get(no_path()) matches Some(TomlNode::Array(_)),
        r matches Some(a) ==> item_paths(*item).get(no_path()) == Some(TomlNode::Array(array_strs(*a))),
{
    item.as_array()
}

/// `Array::len`: the number of elements.
#[verifier::external_body]
fn array_len(a: &Array) -> (r: usize)
    ensures
        r == array_strs(*a).len(),
{
    a.len()
}

/// `Array::get`: the element at `i`, exactly when `i` is in bounds.
#[verifier::external_body]
fn array_get(a: &Array, i: usize) -> (r: Option<&Value>)
    ensures
        r is Some <==> i < array_strs(*a).len(),
        r matches Some(v) ==> value_text(*v) == array_strs(*a)[i as int],
{
    a.get(i)
}

/// `Value::as_str`: the text of a string value, `None` for any other value.
#[verifier::external_body]
fn value_as_str(v: &Value) -> (r: Option<&str>)
    ensures
        match r {
            Some(s) => value_text(*v) == Some(s@),
            None => value_text(*v) is None,
        },
{
    v.as_str()
}

/// The texts of the string elements of an array, in order.
pub open spec fn strings_of(s: Seq<Option<Seq<char>>>) -> Seq<Seq<char>>
    decreases s.len(),
{
    if s.len() == 0 {
        Seq::empty()
    } else {
        let rest = strings_of(s.drop_last());
        match s.last() {
            Some(t) => rest.push(t),
            None => rest,
        }
    }
}

/// Whether every element of an array is a string.
pub open spec fn all_strings(s: Seq<Option<Seq<char>>>) -> bool {
    forall|i: int| 0 <= i < s.len() ==> (#[trigger] s[i]) is Some
}

/// The texts of a list of strings.
pub open spec fn texts(v: Seq<String>) -> Seq<Seq<char>> {
    v.map_values(|x: String| x@)
}

/// The string elements of `a`, and whether all its elements are strings.
fn collect_strings(a: &Array) -> (r: (Vec<String>, bool))
    ensures
        texts(r.0@) == strings_of(array_strs(*a)),
        r.1 == all_strings(array_strs(*a)),
{
    let ghost s = array_strs(*a);
    let n = array_len(a);
    let mut out: Vec<String> = Vec::new();
    let mut all = true;
    let mut i: usize = 0;
    while i < n
        invariant
            n == s.len(),
            s == array_strs(*a),
            i <= n,
            texts(out@) == strings_of(s.take(i as int)),
            all == (forall|j: int| 0 <= j < i ==> (#[trigger] s[j]) is Some),
        decreases n - i,
    {
        proof {
            assert(s.take(i + 1).drop_last() =~= s.take(i as int));
        }
        match array_get(a, i) {
            Some(v) => match value_as_str(v) {
                Some(t) => {
                    out.push(t.to_string());
                    assert(texts(out@) =~= strings_of(s.take(i + 1)));
                },
                None => {
                    all = false;
                },
            },
            None => {},
        }
        i = i + 1;
    }
    assert(s.take(n as int) =~= s);
    (out, all)
}

/// The array under key `k` of `m`, if `k` holds an array value.
pub open spec fn array_at(m: Map<Seq<Seq<char>>, TomlNode>, k: Seq<char>) -> Option<Seq<Option<Seq<char>>>> {
    match m.get(key_path(k)) {
        Some(TomlNode::Array(s)) => Some(s),
        _ => None,
    }
}

/// The array under `key` of table `t`, if `key` holds an array value.
fn sub_array<'a>(t: &'a Table, key: &str) -> (r: Option<&'a Array>)
    ensures
        match r {
            Some(a) => array_at(table_paths(*t), key@) == Some(array_strs(*a)),
            None => array_at(table_paths(*t), key@) is None,
        },
{
    proof {
        lemma_under_self(table_paths(*t), key@);
    }
    match table_get(t, key) {
        Some(item) => item_as_array(item),
        None => None,
    }
}

/// What `workspace.members` and `workspace.exclude` of a parsed root
/// manifest give: `NoWorkspace` without a `[workspace]` table,
/// `NoMembers` without a `members` array in it, `MemberNotString` for a
/// member that is not a string; otherwise the member patterns, and the
/// string entries of `exclude` (none when it is no array).
pub open spec fn member_patterns_spec(d: Map<Seq<Seq<char>>, TomlNode>) -> Result<(Seq<Seq<char>>, Seq<Seq<char>>), WireError> {
    let w = table_under(d, ws_key());
    if !table_at(d, ws_key()) {
        Err(WireError::NoWorkspace)
    } else {
        match array_at(w, "members"@) {
            None => Err(WireError::NoMembers),
            Some(ms) => if !all_strings(ms) {
                Err(WireError::MemberNotString)
            } else {
                Ok(
                    (
                        strings_of(ms),
                        match array_at(w, "exclude"@) {
                            Some(xs) => strings_of(xs),
                            None => Seq::empty(),
                        },
                    ),
                )
            },
        }
    }
}

/// The member patterns of a workspace root manifest and its excluded
/// paths, as written; the patterns are expanded against the file system by
/// the caller.
pub fn workspace_member_patterns(root_toml: &str) -> (r: Result<(Vec<String>, Vec<String>), WireError>)
    ensures
        r matches Err(WireError::Parse { .. }) <==> !toml_parses(root_toml@),
        toml_parses(root_toml@) ==> match member_patterns_spec(toml_doc(root_toml@)) {
            Err(e) => r == Err::<(Vec<String>, Vec<String>), WireError>(e),
            Ok((ms, xs)) => r matches Ok((m, x)) && texts(m@) == ms && texts(x@) == xs,
        },
{
    let doc = match parse_document(root_toml) {
        Ok(d) => d,
        Err(e) => {
            return Err(WireError::Parse { message: toml_error_text(&e) });
        },
    };
    let ghost d = toml_doc(root_toml@);
    proof {
        lemma_under_self(d, ws_key());
    }
    let ws = match sub_table(document_root(&doc), "workspace") {
        Some(t) => t,
        None => {
            return Err(WireError::NoWorkspace);
        },
    };
    let members = match sub_array(ws, "members") {
        Some(a) => a,
        None => {
            return Err(WireError::NoMembers);
        },
    };
    let (patterns, all) = collect_strings(members);
    if !all {
        return Err(WireError::MemberNotString);
    }
    let excluded = match sub_array(ws, "exclude") {
        Some(a) => collect_strings(a).0,
        None => Vec::new(),
    };
    Ok((patterns, excluded))
}

/// `m` holds nothing under key `k`.
pub open spec fn free_at(m: Map<Seq<Seq<char>>, TomlNode>, k: Seq<char>) -> bool {
    forall|p: Seq<Seq<char>>| #[trigger] m.contains_key(p) ==> !starts_with_key(p, k)
}

/// Putting a lone node under a key that holds nothing adds that one path.
pub proof fn lemma_graft_lone(m: Map<Seq<Seq<char>>, TomlNode>, k: Seq<char>, v: TomlNode)
    requires
        free_at(m, k),
    ensures
        graft(m, k, lone(v)) == m.insert(key_path(k), v),
{
    let g = graft(m, k, lone(v));
    let h = m.insert(key_path(k), v);
    assert forall|p: Seq<Seq<char>>| #[trigger] g.contains_key(p) == h.contains_key(p) by {
        if starts_with_key(p, k) {
            if p.len() == 1 {
                assert(p =~= key_path(k));
                assert(p.drop_first() =~= no_path());
            } else {
                assert(p.drop_first().len() > 0);
                assert(p != key_path(k));
            }
        } else {
            assert(starts_with_key(key_path(k), k));
        }
    }
    assert forall|p: Seq<Seq<char>>| g.contains_key(p) implies #[trigger] g[p] == h[p] by {
        if starts_with_key(p, k) {
            assert(p.drop_first().len() == 0);
            assert(p =~= key_path(k));
        } else {
            assert(starts_with_key(key_path(k), k));
        }
    }
    assert(g =~= h);
}

/// What is under `k` after `graft(m, k, s)` is `s`.
pub proof fn lemma_under_graft(m: Map<Seq<Seq<char>>, TomlNode>, k: Seq<char>, s: Map<Seq<Seq<char>>, TomlNode>)
    ensures
        under_key(graft(m, k, s), k) == s,
{
    assert forall|p: Seq<Seq<char>>| #[trigger] under_key(graft(m, k, s), k).contains_key(p) == s.contains_key(p) by {
        lemma_path_in(k, p);
    }
    assert forall|p: Seq<Seq<char>>| s.contains_key(p) implies #[trigger] under_key(graft(m, k, s), k)[p] == s[p] by {
        lemma_path_in(k, p);
    }
    assert(under_key(graft(m, k, s), k) =~= s);
}

/// The key `features`.
pub open spec fn features_key() -> Seq<char> {
    "features"@
}

/// The inline table `{ key = "text", features = [feature] }` as paths.
pub open spec fn dep_entry(key: Seq<char>, text: Seq<char>, feature: Seq<char>) -> Map<Seq<Seq<char>>, TomlNode> {
    Map::empty().insert(key_path(key), TomlNode::Str(text)).insert(
        key_path(features_key()),
        TomlNode::Array(seq![Some(feature)]),
    ).insert(no_path(), TomlNode::Inline)
}

/// An inline table `{ key = "text", features = [feature] }`.
fn inline_dep(key: &str, text: &str, feature: &str) -> (r: Value)
    requires
        key@ != features_key(),
    ensures
        value_paths(r) == dep_entry(key@, text@, feature@),
{
    let mut t = new_inline_table();
    inline_insert(&mut t, key, str_value(text));
    let ghost m1 = inline_paths(t);
    proof {
        lemma_graft_lone(Map::empty(), key@, TomlNode::Str(text@));
    }
    let mut feats = new_array();
    array_push(&mut feats, str_value(feature));
    assert(array_strs(feats) =~= seq![Some(feature@)]);
    proof {
        assert forall|p: Seq<Seq<char>>| #[trigger] m1.contains_key(p) implies !starts_with_key(p, features_key()) by {
            assert(p == key_path(key@));
        }
        lemma_graft_lone(m1, features_key(), TomlNode::Array(seq![Some(feature@)]));
    }
    inline_insert(&mut t, "features", array_value(feats));
    inline_value(t)
}

/// The inline table `{ key = flag }` as paths.
pub open spec fn flag_entry(key: Seq<char>, flag: bool) -> Map<Seq<Seq<char>>, TomlNode> {
    Map::empty().insert(key_path(key), TomlNode::Bool(flag)).insert(no_path(), TomlNode::Inline)
}

/// An inline table `{ key = flag }`.
fn inline_flag(key: &str, flag: bool) -> (r: Value)
    ensures
        value_paths(r) == flag_entry(key@, flag),
{
    let mut t = new_inline_table();
    inline_insert(&mut t, key, bool_value(flag));
    proof {
        lemma_graft_lone(Map::empty(), key@, TomlNode::Bool(flag));
    }
    inline_value(t)
}

/// Why a manifest cannot be patched.
#[derive(Debug, PartialEq, Eq)]
pub enum WireError {
    /// The text is not TOML (the parser's message).
    Parse { message: String },
    /// The root manifest has no `[workspace]` table.
    NoWorkspace,
    /// `[workspace]` is not a table.
    WorkspaceNotTable,
    /// The dependency table is not a table.
    DepsNotTable,
    /// `[workspace]` has no `members` array.
    NoMembers,
    /// An entry of `workspace.members` is not a string.
    MemberNotString,
    /// The patched text, parsed again, does not show `captrack` wired.
    NotReadBack,
}

/// The key a source is given by: `path` or `version`.
pub open spec fn source_key(source: WireSource) -> Seq<char> {
    match source {
        WireSource::Path { .. } => "path"@,
        WireSource::Version { .. } => "version"@,
    }
}

/// The text of a source: the path or the version.
pub open spec fn source_text(source: WireSource) -> Seq<char> {
    match source {
        WireSource::Path { path } => path@,
        WireSource::Version { version } => version@,
    }
}

/// The feature every workspace turns on.
pub open spec fn telemetry() -> Seq<char> {
    "telemetry"@
}

/// The `[workspace.dependencies]` entry for a source:
/// `{ path = "...", features = ["telemetry"] }` or
/// `{ version = "...", features = ["telemetry"] }`.
pub open spec fn root_entry(source: WireSource) -> Map<Seq<Seq<char>>, TomlNode> {
    dep_entry(source_key(source), source_text(source), telemetry())
}

/// A member's entry: `{ workspace = true }`.
pub open spec fn member_entry() -> Map<Seq<Seq<char>>, TomlNode> {
    flag_entry(ws_key(), true)
}

/// The `[workspace.dependencies]` entry for `source`.
fn captrack_inline_dep(source: &WireSource) -> (r: Value)
    ensures
        value_paths(r) == root_entry(*source),
{
    proof {
        reveal_strlit("path");
        reveal_strlit("version");
        reveal_strlit("features");
    }
    assert("path"@.len() != features_key().len() && "version"@.len() != features_key().len());
    match source {
        WireSource::Path { path } => inline_dep("path", path.as_str(), "telemetry"),
        WireSource::Version { version } => inline_dep("version", version.as_str(), "telemetry"),
    }
}

/// The first decision on the root manifest, from what its document shows:
/// whether it has `workspace`, and, when `workspace` is a table, whether
/// that table has `dependencies` (`None` when it is not a table).
/// `Ok(true)` when `[workspace.dependencies]` is to be created first.
pub fn workspace_step(has_workspace: bool, has_deps: Option<bool>) -> (r: Result<bool, WireError>)
    ensures
        !has_workspace ==> r == Err::<bool, WireError>(WireError::NoWorkspace),
        has_workspace ==> r == match has_deps {
            None => Err::<bool, WireError>(WireError::WorkspaceNotTable),
            Some(h) => Ok::<bool, WireError>(!h),
        },
{
    if !has_workspace {
        return Err(WireError::NoWorkspace);
    }
    match has_deps {
        None => Err(WireError::WorkspaceNotTable),
        Some(h) => Ok(!h),
    }
}

/// The decision on the dependency table, from whether it holds `captrack`
/// (`None` when it is not a table): `Ok(true)` when `captrack` is to be
/// added, `Ok(false)` when it is there already.
pub fn captrack_step(has_captrack: Option<bool>) -> (r: Result<bool, WireError>)
    ensures
        r == match has_captrack {
            None => Err::<bool, WireError>(WireError::DepsNotTable),
            Some(h) => Ok::<bool, WireError>(!h),
        },
{
    match has_captrack {
        None => Err(WireError::DepsNotTable),
        Some(h) => Ok(!h),
    }
}

/// The rendered text when it differs from `before`, `None` otherwise.
pub fn changed_text(before: &str, after: String) -> (r: Option<String>)
    ensures
        match r {
            None => after@ == before@,
            Some(t) => t@ == after@ && after@ != before@,
        },
{
    if str_eq(after.as_str(), before) {
        None
    } else {
        Some(after)
    }
}

/// The path of a single key.
pub open spec fn key_path(k: Seq<char>) -> Seq<Seq<char>> {
    seq![k]
}

/// Whether key `k` of `m` holds a table.
pub open spec fn table_at(m: Map<Seq<Seq<char>>, TomlNode>, k: Seq<char>) -> bool {
    m.contains_key(key_path(k)) && m[key_path(k)] == TomlNode::Table
}

/// The contents of the table under key `k` of `m`.
pub open spec fn table_under(m: Map<Seq<Seq<char>>, TomlNode>, k: Seq<char>) -> Map<Seq<Seq<char>>, TomlNode> {
    under_key(m, k).remove(no_path())
}

/// `m` with the table under `k` holding `t`.
pub open spec fn set_table(
    m: Map<Seq<Seq<char>>, TomlNode>,
    k: Seq<char>,
    t: Map<Seq<Seq<char>>, TomlNode>,
) -> Map<Seq<Seq<char>>, TomlNode> {
    graft(m, k, t.insert(no_path(), TomlNode::Table))
}

/// What a lone item `v` holds.
pub open spec fn lone(v: TomlNode) -> Map<Seq<Seq<char>>, TomlNode> {
    Map::empty().insert(no_path(), v)
}

/// The key `workspace`.
pub open spec fn ws_key() -> Seq<char> {
    "workspace"@
}

/// The key `dependencies`.
pub open spec fn deps_key() -> Seq<char> {
    "dependencies"@
}

/// The key `captrack`.
pub open spec fn cap_key() -> Seq<char> {
    "captrack"@
}

/// Whether the dependency table `t` names `captrack`.
pub open spec fn names_captrack(t: Map<Seq<Seq<char>>, TomlNode>) -> bool {
    t.contains_key(key_path(cap_key()))
}

/// The dependency table `t` with `captrack` holding `v`.
pub open spec fn with_captrack(t: Map<Seq<Seq<char>>, TomlNode>, e: Map<Seq<Seq<char>>, TomlNode>) -> Map<Seq<Seq<char>>, TomlNode> {
    graft(t, cap_key(), e)
}

/// A member manifest's paths once `[dependencies]` is made sure of: an
/// empty table is added when the key holds nothing.
pub open spec fn member_deps(d: Map<Seq<Seq<char>>, TomlNode>) -> Map<Seq<Seq<char>>, TomlNode> {
    if d.contains_key(key_path(deps_key())) {
        d
    } else {
        graft(d, deps_key(), lone(TomlNode::Table))
    }
}

/// The paths of a parsed member manifest once wired: `captrack = {
/// workspace = true }` in `[dependencies]` (created when the key holds
/// nothing), everything else as it was.
pub open spec fn member_wiring(d: Map<Seq<Seq<char>>, TomlNode>) -> Map<Seq<Seq<char>>, TomlNode> {
    let d1 = member_deps(d);
    set_table(d1, deps_key(), with_captrack(table_under(d1, deps_key()), member_entry()))
}

/// A root manifest's paths once `[workspace.dependencies]` is made sure
/// of (for a `workspace` table): an empty table is added when the key
/// holds nothing.
pub open spec fn root_deps(d: Map<Seq<Seq<char>>, TomlNode>) -> Map<Seq<Seq<char>>, TomlNode> {
    if table_under(d, ws_key()).contains_key(key_path(deps_key())) {
        d
    } else {
        set_table(d, ws_key(), graft(table_under(d, ws_key()), deps_key(), lone(TomlNode::Table)))
    }
}

/// The paths of a parsed root manifest once wired for `source`: its
/// entry in `[workspace.dependencies]` (created when the key holds
/// nothing), everything else as it was.
pub open spec fn root_wiring(d: Map<Seq<Seq<char>>, TomlNode>, source: WireSource) -> Map<Seq<Seq<char>>, TomlNode> {
    let d1 = root_deps(d);
    let w = table_under(d1, ws_key());
    set_table(d1, ws_key(), set_table(w, deps_key(), with_captrack(table_under(w, deps_key()), root_entry(source))))
}

/// Why `wire` refuses a parsed root manifest, if it does: no `workspace`,
/// a `workspace` that is not a table, or a `dependencies` in it that is
/// not a table.
pub open spec fn root_refusal(d: Map<Seq<Seq<char>>, TomlNode>) -> Option<WireError> {
    if !d.contains_key(key_path(ws_key())) {
        Some(WireError::NoWorkspace)
    } else if !table_at(d, ws_key()) {
        Some(WireError::WorkspaceNotTable)
    } else if !table_at(table_under(root_deps(d), ws_key()), deps_key()) {
        Some(WireError::DepsNotTable)
    } else {
        None
    }
}

/// Whether a parsed root manifest names `captrack` in
/// `[workspace.dependencies]` already.
pub open spec fn root_wired(d: Map<Seq<Seq<char>>, TomlNode>) -> bool {
    names_captrack(table_under(table_under(root_deps(d), ws_key()), deps_key()))
}

/// Why `wire` refuses a parsed member manifest, if it does: a
/// `dependencies` that is not a table.
pub open spec fn member_refusal(d: Map<Seq<Seq<char>>, TomlNode>) -> Option<WireError> {
    if !table_at(member_deps(d), deps_key()) {
        Some(WireError::DepsNotTable)
    } else {
        None
    }
}

/// Whether a parsed member manifest names `captrack` in `[dependencies]`
/// already.
pub open spec fn member_wired(d: Map<Seq<Seq<char>>, TomlNode>) -> bool {
    names_captrack(table_under(member_deps(d), deps_key()))
}

/// A key path put under a key: its first key, and the rest.
pub proof fn lemma_path_in(k: Seq<char>, p: Seq<Seq<char>>)
    ensures
        path_in(k, p).len() == p.len() + 1,
        path_in(k, p)[0] == k,
        path_in(k, p).drop_first() == p,
        starts_with_key(path_in(k, p), k),
        path_in(k, no_path()) == key_path(k),
{
    assert(path_in(k, p).drop_first() =~= p);
    assert(path_in(k, no_path()) =~= key_path(k));
}

/// The item under `k` is what the key itself holds.
pub proof fn lemma_under_self(m: Map<Seq<Seq<char>>, TomlNode>, k: Seq<char>)
    ensures
        under_key(m, k).contains_key(no_path()) == m.contains_key(key_path(k)),
        under_key(m, k).get(no_path()) == m.get(key_path(k)),
        under_key(m, k).get(no_path()) == Some(TomlNode::Table) <==> table_at(m, k),
{
    lemma_path_in(k, no_path());
}

/// After `set_table(m, k, t)`, key `k` holds a table whose contents are `t`.
pub proof fn lemma_set_table(m: Map<Seq<Seq<char>>, TomlNode>, k: Seq<char>, t: Map<Seq<Seq<char>>, TomlNode>)
    ensures
        table_at(set_table(m, k, t), k),
        table_under(set_table(m, k, t), k) == t.remove(no_path()),
{
    lemma_path_in(k, no_path());
    let g = set_table(m, k, t);
    assert forall|p: Seq<Seq<char>>| #[trigger] under_key(g, k).contains_key(p) == t.insert(no_path(), TomlNode::Table).contains_key(p) by {
        lemma_path_in(k, p);
    }
    assert forall|p: Seq<Seq<char>>| under_key(g, k).contains_key(p) implies #[trigger] under_key(g, k)[p] == t.insert(no_path(), TomlNode::Table)[p] by {
        lemma_path_in(k, p);
    }
    assert(under_key(g, k) =~= t.insert(no_path(), TomlNode::Table));
    assert(table_under(g, k) =~= t.remove(no_path()));
}

/// Taking away what an item itself is leaves what is under its keys.
pub proof fn lemma_under_without_self(m: Map<Seq<Seq<char>>, TomlNode>, k: Seq<char>)
    ensures
        under_key(m.remove(no_path()), k) == under_key(m, k),
        table_under(m.remove(no_path()), k) == table_under(m, k),
        table_at(m.remove(no_path()), k) == table_at(m, k),
{
    assert forall|p: Seq<Seq<char>>| #[trigger] under_key(m.remove(no_path()), k).contains_key(p) == under_key(m, k).contains_key(p) by {
        lemma_path_in(k, p);
    }
    assert(under_key(m.remove(no_path()), k) =~= under_key(m, k));
    lemma_path_in(k, no_path());
}

/// Wiring a root manifest twice changes nothing the second time: the
/// wired paths are accepted and name `captrack` already, so a second
/// `patch_root_manifest` returns `Ok(None)`.
pub proof fn lemma_rewire_root_is_noop(d: Map<Seq<Seq<char>>, TomlNode>, source: WireSource)
    requires
        root_refusal(d) is None,
    ensures
        root_refusal(root_wiring(d, source)) is None,
        root_wired(root_wiring(d, source)),
{
    let after = root_wiring(d, source);
    let d1 = root_deps(d);
    let w = table_under(d1, ws_key());
    let e = root_entry(source);
    let inner = with_captrack(table_under(w, deps_key()), e);
    let x = set_table(w, deps_key(), inner);
    lemma_set_table(d1, ws_key(), x);
    lemma_set_table(w, deps_key(), inner);
    lemma_with_captrack(table_under(w, deps_key()), e);
    lemma_under_without_self(x, deps_key());
    lemma_path_in(deps_key(), no_path());
    lemma_under_self(after, ws_key());
    assert(table_under(after, ws_key()) == x.remove(no_path()));
    assert(table_under(after, ws_key()).contains_key(key_path(deps_key())));
    assert(root_deps(after) == after);
}

/// Wiring a member manifest twice changes nothing the second time.
pub proof fn lemma_rewire_member_is_noop(d: Map<Seq<Seq<char>>, TomlNode>)
    requires
        member_refusal(d) is None,
    ensures
        member_refusal(member_wiring(d)) is None,
        member_wired(member_wiring(d)),
{
    let d1 = member_deps(d);
    let inner = with_captrack(table_under(d1, deps_key()), member_entry());
    lemma_set_table(d1, deps_key(), inner);
    lemma_with_captrack(table_under(d1, deps_key()), member_entry());
    lemma_path_in(cap_key(), no_path());
    assert(member_deps(member_wiring(d)) == member_wiring(d));
}

/// `with_captrack` names `captrack`.
pub proof fn lemma_with_captrack(t: Map<Seq<Seq<char>>, TomlNode>, e: Map<Seq<Seq<char>>, TomlNode>)
    requires
        e.contains_key(no_path()),
    ensures
        names_captrack(with_captrack(t, e)),
{
    lemma_path_in(cap_key(), no_path());
}

/// Whether a text is a root manifest that `wire` accepts and that names
/// `captrack` in `[workspace.dependencies]`.
pub open spec fn reads_wired_root(text: Seq<char>) -> bool {
    toml_parses(text) && root_refusal(toml_doc(text)) is None && root_wired(toml_doc(text))
}

/// Whether a text is a member manifest that `wire` accepts and that names
/// `captrack` in `[dependencies]`.
pub open spec fn reads_wired_member(text: Seq<char>) -> bool {
    toml_parses(text) && member_refusal(toml_doc(text)) is None && member_wired(toml_doc(text))
}

/// Whether `text` reads as a wired root manifest.
fn root_reads_wired(text: &str) -> (b: bool)
    ensures
        b == reads_wired_root(text@),
{
    let doc = match parse_document(text) {
        Ok(d) => d,
        Err(_) => {
            return false;
        },
    };
    let ghost d = toml_doc(text@);
    proof {
        lemma_under_self(d, ws_key());
    }
    let ws = match sub_table(document_root(&doc), "workspace") {
        Some(t) => t,
        None => {
            return false;
        },
    };
    let ghost w = table_under(d, ws_key());
    proof {
        lemma_under_self(w, deps_key());
    }
    let deps = match sub_table(ws, "dependencies") {
        Some(t) => t,
        None => {
            proof {
                if !w.contains_key(key_path(deps_key())) {
                    let g = graft(w, deps_key(), lone(TomlNode::Table));
                    lemma_set_table(d, ws_key(), g);
                    lemma_under_without_self(g, deps_key());
                    lemma_under_graft(w, deps_key(), lone(TomlNode::Table));
                    lemma_path_in(cap_key(), no_path());
                    assert(!table_under(g.remove(no_path()), deps_key()).contains_key(key_path(cap_key())));
                }
            }
            return false;
        },
    };
    table_contains_key(deps, "captrack")
}

/// Whether `text` reads as a wired member manifest.
fn member_reads_wired(text: &str) -> (b: bool)
    ensures
        b == reads_wired_member(text@),
{
    let doc = match parse_document(text) {
        Ok(d) => d,
        Err(_) => {
            return false;
        },
    };
    let ghost d = toml_doc(text@);
    proof {
        lemma_under_self(d, deps_key());
    }
    match sub_table(document_root(&doc), "dependencies") {
        Some(t) => table_contains_key(t, "captrack"),
        None => {
            proof {
                if !d.contains_key(key_path(deps_key())) {
                    let g = graft(d, deps_key(), lone(TomlNode::Table));
                    lemma_under_graft(d, deps_key(), lone(TomlNode::Table));
                    lemma_path_in(cap_key(), no_path());
                    assert(!table_under(g, deps_key()).contains_key(key_path(cap_key())));
                }
            }
            false
        },
    }
}

/// The root manifest text with `captrack` added to
/// `[workspace.dependencies]` (the table created when the key holds
/// nothing): `None` when `captrack` is there already.  Fails when the text
/// is not TOML, has no `workspace`, or `workspace` or its `dependencies` is
/// not a table, and when the patched text does not read back as wired.
pub fn patch_root_text(before: &str, source: &WireSource) -> (r: Result<Option<String>, WireError>)
    ensures
        r matches Err(WireError::Parse { .. }) <==> !toml_parses(before@),
        toml_parses(before@) ==> {
            let d = toml_doc(before@);
            let w1 = table_under(root_deps(d), ws_key());
            &&& (r == Err::<Option<String>, WireError>(WireError::NoWorkspace)) <==> !d.contains_key(
                key_path(ws_key()),
            )
            &&& (r == Err::<Option<String>, WireError>(WireError::WorkspaceNotTable)) <==> d.contains_key(
                key_path(ws_key()),
            ) && !table_at(d, ws_key())
            &&& (r == Err::<Option<String>, WireError>(WireError::DepsNotTable)) <==> table_at(d, ws_key())
                && !table_at(w1, deps_key())
            &&& (r matches Ok(None)) <==> table_at(d, ws_key()) && table_at(w1, deps_key()) && names_captrack(
                table_under(w1, deps_key()),
            )
            &&& table_at(d, ws_key()) && table_at(w1, deps_key()) && !names_captrack(table_under(w1, deps_key()))
                ==> (r matches Ok(Some(_)) || r == Err::<Option<String>, WireError>(WireError::NotReadBack))
        },
        r == Err::<Option<String>, WireError>(WireError::NotReadBack) ==> {
            &&& toml_parses(before@)
            &&& root_refusal(toml_doc(before@)) is None
            &&& !root_wired(toml_doc(before@))
            &&& exists|doc: DocumentMut|
                doc_paths(doc) == root_wiring(toml_doc(before@), *source) && !reads_wired_root(
                    #[trigger] doc_text(doc),
                )
        },
        r matches Ok(Some(after)) ==> {
            &&& after@ != before@
            &&& reads_wired_root(after@)
            &&& exists|doc: DocumentMut|
                #[trigger] doc_text(doc) == after@ && doc_paths(doc) == root_wiring(toml_doc(before@), *source)
        },
{
    let mut doc = match parse_document(before) {
        Ok(d) => d,
        Err(e) => {
            return Err(WireError::Parse { message: toml_error_text(&e) });
        },
    };
    let ghost d = toml_doc(before@);
    let ghost d1 = root_deps(d);
    proof {
        lemma_under_self(d, ws_key());
    }
    let has_workspace = table_get(document_root(&doc), "workspace").is_some();
    let has_deps = if has_workspace {
        key_state(sub_table(document_root(&doc), "workspace"), "dependencies")
    } else {
        None
    };
    if workspace_step(has_workspace, has_deps)? {
        match sub_table_mut(document_root_mut(&mut doc), "workspace") {
            Some(ws) => table_insert(ws, "dependencies", empty_table()),
            None => {},
        }
    }
    assert(doc_paths(doc) == d1);
    proof {
        if !table_under(d, ws_key()).contains_key(key_path(deps_key())) {
            lemma_set_table(d, ws_key(), graft(table_under(d, ws_key()), deps_key(), lone(TomlNode::Table)));
        }
        lemma_under_self(d1, ws_key());
    }
    let ghost w1 = table_under(d1, ws_key());
    assert(table_at(d1, ws_key()));
    let deps = match sub_table(document_root(&doc), "workspace") {
        Some(ws) => sub_table(ws, "dependencies"),
        None => None,
    };
    proof {
        lemma_under_self(w1, deps_key());
    }
    let present = key_state(deps, "captrack");
    assert(present is None <==> !table_at(w1, deps_key()));
    assert(present matches Some(b) ==> b == names_captrack(table_under(w1, deps_key())));
    if !captrack_step(present)? {
        return Ok(None);
    }
    let item = value_item(captrack_inline_dep(source));
    let ghost e = item_paths(item);
    match sub_table_mut(document_root_mut(&mut doc), "workspace") {
        Some(ws) => match sub_table_mut(ws, "dependencies") {
            Some(deps) => table_insert(deps, "captrack", item),
            None => {},
        },
        None => {},
    }
    let ghost inner = with_captrack(table_under(w1, deps_key()), e);
    let ghost wired = set_table(d1, ws_key(), set_table(w1, deps_key(), inner));
    assert(doc_paths(doc) == wired);
    assert(wired == root_wiring(d, *source));
    let after = render_document(&doc);
    assert(doc_text(doc) == after@ && doc_paths(doc) == root_wiring(d, *source));
    if !root_reads_wired(after.as_str()) {
        return Err(WireError::NotReadBack);
    }
    proof {
        if after@ == before@ {
            assert(root_wired(d));
            assert(false);
        }
    }
    Ok(changed_text(before, after))
}

/// A member manifest text with `captrack = { workspace = true }` added to
/// `[dependencies]` (the table created when the key holds nothing):
/// `None` when `captrack` is there already.  Fails when the text is not
/// TOML or `dependencies` is not a table, and when the patched text does
/// not read back as wired.
pub fn patch_member_text(before: &str) -> (r: Result<Option<String>, WireError>)
    ensures
        r matches Err(WireError::Parse { .. }) <==> !toml_parses(before@),
        toml_parses(before@) ==> {
            let d1 = member_deps(toml_doc(before@));
            &&& (r == Err::<Option<String>, WireError>(WireError::DepsNotTable)) <==> !table_at(d1, deps_key())
            &&& (r matches Ok(None)) <==> table_at(d1, deps_key()) && names_captrack(table_under(d1, deps_key()))
            &&& table_at(d1, deps_key()) && !names_captrack(table_under(d1, deps_key())) ==> (r matches Ok(Some(_))
                || r == Err::<Option<String>, WireError>(WireError::NotReadBack))
        },
        r == Err::<Option<String>, WireError>(WireError::NotReadBack) ==> {
            &&& toml_parses(before@)
            &&& member_refusal(toml_doc(before@)) is None
            &&& !member_wired(toml_doc(before@))
            &&& exists|doc: DocumentMut|
                doc_paths(doc) == member_wiring(toml_doc(before@)) && !reads_wired_member(#[trigger] doc_text(doc))
        },
        r matches Ok(Some(after)) ==> {
            &&& after@ != before@
            &&& reads_wired_member(after@)
            &&& exists|doc: DocumentMut|
                #[trigger] doc_text(doc) == after@ && doc_paths(doc) == member_wiring(toml_doc(before@))
        },
{
    let mut doc = match parse_document(before) {
        Ok(d) => d,
        Err(e) => {
            return Err(WireError::Parse { message: toml_error_text(&e) });
        },
    };
    let ghost d = toml_doc(before@);
    let ghost d1 = member_deps(d);
    proof {
        lemma_under_self(d, deps_key());
    }
    if table_get(document_root(&doc), "dependencies").is_none() {
        table_insert(document_root_mut(&mut doc), "dependencies", empty_table());
    }
    assert(doc_paths(doc) == d1);
    proof {
        lemma_under_self(d1, deps_key());
    }
    let present = key_state(sub_table(document_root(&doc), "dependencies"), "captrack");
    assert(present is None <==> !table_at(d1, deps_key()));
    assert(present matches Some(b) ==> b == names_captrack(table_under(d1, deps_key())));
    if !captrack_step(present)? {
        return Ok(None);
    }
    let item = value_item(inline_flag("workspace", true));
    match sub_table_mut(document_root_mut(&mut doc), "dependencies") {
        Some(deps) => table_insert(deps, "captrack", item),
        None => {},
    }
    let ghost wired = set_table(d1, deps_key(), with_captrack(table_under(d1, deps_key()), member_entry()));
    assert(doc_paths(doc) == wired);
    let after = render_document(&doc);
    assert(doc_text(doc) == after@ && doc_paths(doc) == member_wiring(d));
    if !member_reads_wired(after.as_str()) {
        return Err(WireError::NotReadBack);
    }
    proof {
        if after@ == before@ {
            assert(member_wired(d));
            assert(false);
        }
    }
    Ok(changed_text(before, after))
}

/// The record of a changed manifest.
pub open spec fn entry_ok(e: WireFileEntry, file: Seq<char>, before: Seq<char>, after: Seq<char>) -> bool {
    &&& e.file@ == file
    &&& e.content_before@ == before
    &&& e.sha256_before@ == hex_sha256_spec(bytes_of(before))
    &&& e.sha256_after@ == hex_sha256_spec(bytes_of(after))
}

/// The record of manifest `file` changed from `before` to `after`.
pub fn wire_entry(file: &str, before: &str, after: &str) -> (r: WireFileEntry)
    ensures
        entry_ok(r, file@, before@, after@),
{
    WireFileEntry {
        file: file.to_string(),
        sha256_before: hex_sha256(before.as_bytes()),
        content_before: before.to_string(),
        sha256_after: hex_sha256(after.as_bytes()),
    }
}

/// Patch the root manifest `file` whose text is `before`: the new text to
/// write and its record, `None` when nothing is to change.
pub fn patch_root_manifest(file: &str, before: &str, source: &WireSource) -> (r: Result<Option<(String, WireFileEntry)>, WireError>)
    ensures
        r matches Err(WireError::Parse { .. }) <==> !toml_parses(before@),
        toml_parses(before@) ==> match root_refusal(toml_doc(before@)) {
            Some(e) => r == Err::<Option<(String, WireFileEntry)>, WireError>(e),
            None => if root_wired(toml_doc(before@)) {
                r matches Ok(None)
            } else {
                r matches Ok(Some(_)) || r == Err::<Option<(String, WireFileEntry)>, WireError>(WireError::NotReadBack)
            },
        },
        r == Err::<Option<(String, WireFileEntry)>, WireError>(WireError::NotReadBack) ==> exists|doc: DocumentMut|
            doc_paths(doc) == root_wiring(toml_doc(before@), *source) && !reads_wired_root(#[trigger] doc_text(doc)),
        r matches Ok(Some(p)) ==> {
            &&& p.0@ != before@
            &&& entry_ok(p.1, file@, before@, p.0@)
            &&& reads_wired_root(p.0@)
            &&& exists|doc: DocumentMut|
                #[trigger] doc_text(doc) == p.0@ && doc_paths(doc) == root_wiring(toml_doc(before@), *source)
        },
{
    match patch_root_text(before, source) {
        Err(e) => Err(e),
        Ok(None) => Ok(None),
        Ok(Some(after)) => {
            let e = wire_entry(file, before, after.as_str());
            Ok(Some((after, e)))
        },
    }
}

/// Patch the member manifest `file` whose text is `before`: the new text
/// to write and its record, `None` when nothing is to change.
pub fn patch_member_manifest(file: &str, before: &str) -> (r: Result<Option<(String, WireFileEntry)>, WireError>)
    ensures
        r matches Err(WireError::Parse { .. }) <==> !toml_parses(before@),
        toml_parses(before@) ==> match member_refusal(toml_doc(before@)) {
            Some(e) => r == Err::<Option<(String, WireFileEntry)>, WireError>(e),
            None => if member_wired(toml_doc(before@)) {
                r matches Ok(None)
            } else {
                r matches Ok(Some(_)) || r == Err::<Option<(String, WireFileEntry)>, WireError>(WireError::NotReadBack)
            },
        },
        r == Err::<Option<(String, WireFileEntry)>, WireError>(WireError::NotReadBack) ==> exists|doc: DocumentMut|
            doc_paths(doc) == member_wiring(toml_doc(before@)) && !reads_wired_member(#[trigger] doc_text(doc)),
        r matches Ok(Some(p)) ==> {
            &&& p.0@ != before@
            &&& entry_ok(p.1, file@, before@, p.0@)
            &&& reads_wired_member(p.0@)
            &&& exists|doc: DocumentMut|
                #[trigger] doc_text(doc) == p.0@ && doc_paths(doc) == member_wiring(toml_doc(before@))
        },
{
    match patch_member_text(before) {
        Err(e) => Err(e),
        Ok(None) => Ok(None),
        Ok(Some(after)) => {
            let e = wire_entry(file, before, after.as_str());
            Ok(Some((after, e)))
        },
    }
}

/// Whether manifest file `i` still has its recorded post-`wire` hash.
pub open spec fn unchanged_since(files: Seq<WireFileEntry>, current: Seq<String>, i: int) -> bool {
    hex_sha256_spec(bytes_of(current[i]@)) == files[i].sha256_after@
}

/// Why `unwire` stops.
#[derive(Debug, PartialEq, Eq)]
pub enum UnwireError {
    /// The manifest has a version other than 1.
    UnsupportedVersion { version: u32 },
    /// File `index` was edited after `wire`; `current` is its hash now.
    Modified { index: usize, current: String },
}

/// What `unwire` may do: it checks every recorded file's hash before it
/// restores any, so either every file is restored, or none is and the first
/// edited file is reported.  `current[i]` is the content of file `i` now.
/// Returns how many files are to be restored, and the reason for refusing,
/// if it refuses.
pub fn unwire_plan(m: &WireManifest, current: &Vec<String>) -> (r: (usize, Option<UnwireError>))
    requires
        current@.len() == m.files@.len(),
    ensures
        m.version != WIRE_MANIFEST_VERSION ==> r.0 == 0 && r.1 == Some(
            UnwireError::UnsupportedVersion { version: m.version },
        ),
        m.version == WIRE_MANIFEST_VERSION ==> match r.1 {
            None => {
                &&& r.0 == m.files@.len()
                &&& forall|i: int| 0 <= i < m.files@.len() ==> unchanged_since(m.files@, current@, i)
            },
            Some(UnwireError::Modified { index, current: sha }) => {
                &&& r.0 == 0
                &&& index < m.files@.len()
                &&& forall|i: int| 0 <= i < index ==> unchanged_since(m.files@, current@, i)
                &&& !unchanged_since(m.files@, current@, index as int)
                &&& sha@ == hex_sha256_spec(bytes_of(current@[index as int]@))
            },
            Some(UnwireError::UnsupportedVersion { .. }) => false,
        },
{
    if m.version != WIRE_MANIFEST_VERSION {
        return (0, Some(UnwireError::UnsupportedVersion { version: m.version }));
    }
    let mut i: usize = 0;
    while i < m.files.len()
        invariant
            i <= m.files@.len() == current@.len(),
            m.version == WIRE_MANIFEST_VERSION,
            forall|t: int| 0 <= t < i ==> unchanged_since(m.files@, current@, t),
        decreases m.files.len() - i,
    {
        let sha = hex_sha256(current[i].as_str().as_bytes());
        if !str_eq(sha.as_str(), m.files[i].sha256_after.as_str()) {
            return (0, Some(UnwireError::Modified { index: i, current: sha }));
        }
        i = i + 1;
    }
    (i, None)
}

/// `N Cargo.toml file(s)`, as the summaries of `wire` and `unwire` count.
pub open spec fn file_count_text(n: nat) -> Seq<char> {
    dec(n) + " Cargo.toml file"@ + (if n == 1 {
        ""@
    } else {
        "s"@
    })
}

/// The count `N Cargo.toml file(s)`.
pub fn file_count(n: usize) -> (r: String)
    ensures
        r@ == file_count_text(n as nat),
{
    let mut out: Vec<char> = Vec::new();
    push_dec(&mut out, n as u64);
    push_str(&mut out, " Cargo.toml file");
    if n != 1 {
        push_str(&mut out, "s");
    } else {
        push_str(&mut out, "");
    }
    string_of(&out)
}

/// `unwire` undoes `wire`: for a version-1 manifest whose records were
/// made by `wire_entry` from each manifest's text before and after, checked
/// against the very texts `wire` wrote, every file is restored, each to the
/// text it had before.
pub proof fn lemma_unwire_accepts_wired(
    files: Seq<WireFileEntry>,
    names: Seq<Seq<char>>,
    before: Seq<Seq<char>>,
    current: Seq<String>,
)
    requires
        files.len() == names.len() == before.len() == current.len(),
        forall|i: int| 0 <= i < files.len() ==> entry_ok(#[trigger] files[i], names[i], before[i], current[i]@),
    ensures
        forall|i: int| 0 <= i < files.len() ==> #[trigger] unchanged_since(files, current, i),
        forall|i: int| 0 <= i < files.len() ==> (#[trigger] files[i]).content_before@ == before[i],
{
    assert forall|i: int| 0 <= i < files.len() implies #[trigger] unchanged_since(files, current, i) by {
        assert(entry_ok(files[i], names[i], before[i], current[i]@));
    }
    assert forall|i: int| 0 <= i < files.len() implies (#[trigger] files[i]).content_before@ == before[i] by {
        assert(entry_ok(files[i], names[i], before[i], current[i]@));
    }
}

} // verus!
