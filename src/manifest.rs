//! The manifest: where it is, and the edits made to its dependency tables.
//! An edit checks its precondition on the parsed document before it changes
//! anything, so a failed edit leaves the document as it was.

use vstd::prelude::*;
use crate::depgraph::DepKind;
use crate::text::ends_with;
use toml_edit::{Item, Value};

verus! {

/// Where the manifest file is.
pub struct Manifest {
    pub path: String,
}

/// What std's `Path::parent` gives for a path.
pub uninterp spec fn parent_of(p: Seq<char>) -> Option<Seq<char>>;

/// Relies on `std::path::Path::parent`: the path without its last component.
#[verifier::external_body]
fn parent_path(p: &str) -> (r: Option<String>)
    ensures
        r matches Some(s) ==> parent_of(p@) == Some(s@),
        r is None ==> parent_of(p@) is None,
{
    std::path::Path::new(p).parent().map(|d| d.to_string_lossy().into_owned())
}

/// A directory path with `name` appended as its last component.
pub open spec fn join_spec(dir: Seq<char>, name: Seq<char>) -> Seq<char> {
    if dir.len() == 0 || dir.last() == '/' {
        dir + name
    } else {
        dir + "/"@ + name
    }
}

impl Manifest {
    /// The manifest named by a path: a directory stands for the `Cargo.toml`
    /// in it, any other path for the file itself.
    pub fn from_path(path: String, is_directory: bool) -> (r: Self)
        ensures
            is_directory ==> r.path@ == join_spec(path@, "Cargo.toml"@),
            !is_directory ==> r.path@ == path@,
    {
        if is_directory {
            let n = path.as_str().unicode_len();
            let mut p = path;
            if n == 0 || ends_with(p.as_str(), "/") {
                proof {
                    reveal_strlit("/");
                    if n > 0 {
                        assert(p@.subrange(p@.len() - 1, p@.len() as int)[0] == p@.last());
                    }
                }
                p.append("Cargo.toml");
            } else {
                proof {
                    reveal_strlit("/");
                    assert(!(p@.subrange(p@.len() - 1, p@.len() as int) =~= "/"@) ==> p@.last() != '/');
                }
                p.append("/");
                p.append("Cargo.toml");
            }
            Manifest { path: p }
        } else {
            Manifest { path }
        }
    }

    /// The directory holding the manifest, if its path has a parent.
    pub fn directory(&self) -> (r: Option<String>)
        ensures
            r matches Some(s) ==> parent_of(self.path@) == Some(s@),
            r is None ==> parent_of(self.path@) is None,
    {
        parent_path(self.path.as_str())
    }

    /// The path of the manifest file.
    pub fn path_to_cargo_toml(&self) -> (r: &String)
        ensures
            r@ == self.path@,
    {
        &self.path
    }
}

/// The table of the manifest that holds dependencies of a kind.
pub open spec fn table_name(kind: DepKind) -> Seq<char> {
    match kind {
        DepKind::Development => "dev-dependencies"@,
        DepKind::Build => "build-dependencies"@,
        _ => "dependencies"@,
    }
}

/// Names the table that holds dependencies of a kind.
pub fn to_table_name(kind: DepKind) -> (r: &'static str)
    ensures
        r@ == table_name(kind),
{
    match kind {
        DepKind::Development => "dev-dependencies",
        DepKind::Build => "build-dependencies",
        _ => "dependencies",
    }
}

#[verifier::external_type_specification]
#[verifier::external_body]
pub struct ExDocumentMut(toml_edit::DocumentMut);

#[verifier::external_type_specification]
#[verifier::external_body]
pub struct ExTomlError(toml_edit::TomlError);

/// An item of a document, as far as the edits look at it.
pub ghost enum TomlItem {
    Text(Seq<char>),
    Table,
    Other,
}

/// The items of a document by key path: every item that is not empty, at
/// every depth, through tables and inline tables alike.
pub uninterp spec fn manifest_items(doc: toml_edit::DocumentMut) -> Map<Seq<Seq<char>>, TomlItem>;

/// The items of the document that toml_edit parses from a text, if it parses.
pub uninterp spec fn parsed_manifest(text: Seq<char>) -> Option<Map<Seq<Seq<char>>, TomlItem>>;

/// The kind of the item found at a path.
#[derive(Clone, Copy, Debug, PartialEq, Eq, Structural)]
pub enum ItemKind {
    Missing,
    Text,
    TableLike,
    Other,
}

pub open spec fn kind_at(items: Map<Seq<Seq<char>>, TomlItem>, path: Seq<Seq<char>>) -> ItemKind {
    if !items.contains_key(path) {
        ItemKind::Missing
    } else {
        match items[path] {
            TomlItem::Text(_) => ItemKind::Text,
            TomlItem::Table => ItemKind::TableLike,
            TomlItem::Other => ItemKind::Other,
        }
    }
}

/// Whether `path` lies at or below `at`.
pub open spec fn is_under(path: Seq<Seq<char>>, at: Seq<Seq<char>>) -> bool {
    at.len() <= path.len() && path.subrange(0, at.len() as int) == at
}

/// The items with everything at or below `at` taken away.
pub open spec fn without_subtree(items: Map<Seq<Seq<char>>, TomlItem>, at: Seq<Seq<char>>) -> Map<Seq<Seq<char>>, TomlItem> {
    Map::new(|p: Seq<Seq<char>>| items.contains_key(p) && !is_under(p, at), |p: Seq<Seq<char>>| items[p])
}

/// Relies on `toml_edit::DocumentMut`'s `FromStr`: parses a manifest.
#[verifier::external_body]
fn parse_document(text: &str) -> (r: Result<toml_edit::DocumentMut, toml_edit::TomlError>)
    ensures
        r is Ok <==> parsed_manifest(text@) is Some,
        r matches Ok(d) ==> parsed_manifest(text@) == Some(manifest_items(d)),
{
    text.parse::<toml_edit::DocumentMut>()
}

/// Relies on `toml_edit::Table::get` and `toml_edit::Item::get`: the item at
/// `[table]`, or at `[table, key]`, told apart by its variant.
#[verifier::external_body]
fn item_kind(doc: &toml_edit::DocumentMut, table: &str, key: Option<&str>) -> (r: ItemKind)
    ensures
        key is None ==> r == kind_at(manifest_items(*doc), seq![table@]),
        key matches Some(k) ==> r == kind_at(manifest_items(*doc), seq![table@, k@]),
{
    let item = match key {
        None => doc.get(table),
        Some(k) => doc.get(table).and_then(|t| t.get(k)),
    };
    match item {
        None | Some(Item::None) => ItemKind::Missing,
        Some(Item::Value(Value::String(_))) => ItemKind::Text,
        Some(Item::Table(_)) | Some(Item::Value(Value::InlineTable(_))) => ItemKind::TableLike,
        Some(_) => ItemKind::Other,
    }
}

/// Relies on `toml_edit::Item::as_table_like_mut` and `TableLike::remove`:
/// takes the entry `key` out of the table at `[table]`.
#[verifier::external_body]
fn remove_entry(doc: &mut toml_edit::DocumentMut, table: &str, key: &str)
    requires
        kind_at(manifest_items(*old(doc)), seq![table@]) == ItemKind::TableLike,
    ensures
        manifest_items(*final(doc)) == without_subtree(manifest_items(*old(doc)), seq![table@, key@]),
{
    if let Some(t) = doc.get_mut(table).and_then(|i| i.as_table_like_mut()) {
        t.remove(key);
    }
}

/// The path `[table, key]`, or `[table, key, sub]`.
pub open spec fn entry_path(table: Seq<char>, key: Seq<char>, sub: Option<Seq<char>>) -> Seq<Seq<char>> {
    match sub {
        Some(s) => seq![table, key, s],
        None => seq![table, key],
    }
}

pub open spec fn str_opt_view(o: Option<&str>) -> Option<Seq<char>> {
    match o {
        Some(s) => Some(s@),
        None => None,
    }
}

/// Relies on toml_edit's `IndexMut` for the document and its items and on
/// `toml_edit::value`: writes the string `text` at `[table, key]`, or at
/// `[table, key, sub]`, in place of what was there.
#[verifier::external_body]
fn set_text(doc: &mut toml_edit::DocumentMut, table: &str, key: &str, sub: Option<&str>, text: &str)
    requires
        kind_at(manifest_items(*old(doc)), seq![table@]) == ItemKind::TableLike,
        sub is Some ==> kind_at(manifest_items(*old(doc)), seq![table@, key@]) == ItemKind::TableLike,
    ensures
        manifest_items(*final(doc)) == without_subtree(
            manifest_items(*old(doc)),
            entry_path(table@, key@, str_opt_view(sub)),
        ).insert(entry_path(table@, key@, str_opt_view(sub)), TomlItem::Text(text@)),
{
    match sub {
        None => doc[table][key] = toml_edit::value(text),
        Some(s) => doc[table][key][s] = toml_edit::value(text),
    }
}

/// Relies on toml_edit's `IndexMut` for the document, `Item::or_insert` and
/// `toml_edit::table`: makes an empty table at `[table]` when nothing is there.
#[verifier::external_body]
fn ensure_table(doc: &mut toml_edit::DocumentMut, table: &str)
    ensures
        kind_at(manifest_items(*old(doc)), seq![table@]) == ItemKind::Missing
            ==> manifest_items(*final(doc)) == manifest_items(*old(doc)).insert(seq![table@], TomlItem::Table),
        kind_at(manifest_items(*old(doc)), seq![table@]) != ItemKind::Missing
            ==> manifest_items(*final(doc)) == manifest_items(*old(doc)),
{
    doc[table].or_insert(toml_edit::table());
}

/// A table with nothing but tables, or nothing at all, below it.
pub open spec fn hollow(items: Map<Seq<Seq<char>>, TomlItem>, p: Seq<Seq<char>>) -> bool {
    &&& items.contains_key(p)
    &&& items[p] == TomlItem::Table
    &&& forall|q: Seq<Seq<char>>| #[trigger] items.contains_key(q) && is_under(q, p) ==> items[q] == TomlItem::Table
}

/// What a printed document reads back as: every item as it was, except
/// that a hollow table may be gone (the printer hides an implicit table that
/// holds no value, and a dotted table with no value leaves no text).
pub open spec fn reads_back_as(m: Map<Seq<Seq<char>>, TomlItem>, items: Map<Seq<Seq<char>>, TomlItem>) -> bool {
    &&& forall|p: Seq<Seq<char>>|
        !hollow(items, p) ==> (#[trigger] m.contains_key(p) == items.contains_key(p)) && (items.contains_key(p) ==> m[p]
            == items[p])
    &&& forall|p: Seq<Seq<char>>| hollow(items, p) && #[trigger] m.contains_key(p) ==> m[p] == TomlItem::Table
}

/// Relies on the `Display` of `toml_edit::DocumentMut`: the document as text,
/// its formatting kept, which parses back to the same items but for hollow
/// tables, which the printer may leave out.
#[verifier::external_body]
fn render(doc: &toml_edit::DocumentMut) -> (r: String)
    ensures
        parsed_manifest(r@) is Some,
        reads_back_as(parsed_manifest(r@)->0, manifest_items(*doc)),
{
    doc.to_string()
}

/// Relies on the `Display` of `toml_edit::TomlError`: the parse error as text.
#[verifier::external_body]
fn parse_error_message(e: &toml_edit::TomlError) -> String {
    e.to_string()
}

/// Why an edit of the manifest was refused.
pub enum ManifestError {
    /// The manifest is not valid TOML; the parser's message.
    Parse(String),
    /// The dependency is not in its table.
    NotListed,
    /// The dependency is in its table already.
    AlreadyListed,
    /// The dependency table is something else than a table.
    NotATable,
    /// The dependency entry is neither a version string nor a table.
    UnexpectedEntry,
}

/// The items after a successful add: the table made if it was missing, then
/// the dependency set to the version string.
pub open spec fn added_items(items: Map<Seq<Seq<char>>, TomlItem>, t: Seq<char>, d: Seq<char>, version: Seq<char>) -> Map<Seq<Seq<char>>, TomlItem> {
    let with_table = if kind_at(items, seq![t]) == ItemKind::Missing {
        items.insert(seq![t], TomlItem::Table)
    } else {
        items
    };
    without_subtree(with_table, seq![t, d]).insert(seq![t, d], TomlItem::Text(version))
}

/// The items after a successful upgrade: a version string is replaced, a
/// table gets its `version` key set.
pub open spec fn upgraded_items(items: Map<Seq<Seq<char>>, TomlItem>, t: Seq<char>, d: Seq<char>, version: Seq<char>) -> Map<Seq<Seq<char>>, TomlItem> {
    if kind_at(items, seq![t, d]) == ItemKind::Text {
        without_subtree(items, seq![t, d]).insert(seq![t, d], TomlItem::Text(version))
    } else {
        without_subtree(items, seq![t, d, "version"@]).insert(seq![t, d, "version"@], TomlItem::Text(version))
    }
}

/// Whether the dependency is listed in its table.
pub open spec fn listed(items: Map<Seq<Seq<char>>, TomlItem>, t: Seq<char>, d: Seq<char>) -> bool {
    kind_at(items, seq![t]) == ItemKind::TableLike && kind_at(items, seq![t, d]) != ItemKind::Missing
}

/// Removes a dependency from the table of its kind. Fails, changing
/// nothing, when it is not listed there.
pub fn remove_dependency(doc: &mut toml_edit::DocumentMut, dependency: &str, kind: DepKind) -> (r: Result<(), ManifestError>)
    ensures
        r is Ok <==> listed(manifest_items(*old(doc)), table_name(kind), dependency@),
        r is Err ==> (r matches Err(ManifestError::NotListed)) && *final(doc) == *old(doc),
        r is Ok ==> manifest_items(*final(doc)) == without_subtree(manifest_items(*old(doc)), seq![table_name(kind), dependency@]),
{
    let t = to_table_name(kind);
    if item_kind(doc, t, None) != ItemKind::TableLike {
        return Err(ManifestError::NotListed);
    }
    if item_kind(doc, t, Some(dependency)) == ItemKind::Missing {
        return Err(ManifestError::NotListed);
    }
    remove_entry(doc, t, dependency);
    Ok(())
}

/// Sets the version of a dependency in the table of its kind. Fails,
/// changing nothing, when it is not listed there, or when its entry is
/// neither a string nor a table.
pub fn upgrade_dependency(doc: &mut toml_edit::DocumentMut, dependency: &str, version: &str, kind: DepKind) -> (r: Result<(), ManifestError>)
    ensures
        r matches Err(ManifestError::NotListed) <==> !listed(manifest_items(*old(doc)), table_name(kind), dependency@),
        r matches Err(ManifestError::UnexpectedEntry) <==> listed(manifest_items(*old(doc)), table_name(kind), dependency@)
            && kind_at(manifest_items(*old(doc)), seq![table_name(kind), dependency@]) == ItemKind::Other,
        r is Err ==> (r matches Err(ManifestError::NotListed) || r matches Err(ManifestError::UnexpectedEntry)) && *final(doc) == *old(doc),
        r is Ok ==> manifest_items(*final(doc)) == upgraded_items(manifest_items(*old(doc)), table_name(kind), dependency@, version@),
{
    let t = to_table_name(kind);
    if item_kind(doc, t, None) != ItemKind::TableLike {
        return Err(ManifestError::NotListed);
    }
    match item_kind(doc, t, Some(dependency)) {
        ItemKind::Missing => Err(ManifestError::NotListed),
        ItemKind::Text => {
            set_text(doc, t, dependency, None, version);
            Ok(())
        },
        ItemKind::TableLike => {
            let key = "version";
            proof {
                reveal_strlit("version");
            }
            set_text(doc, t, dependency, Some(key), version);
            Ok(())
        },
        ItemKind::Other => Err(ManifestError::UnexpectedEntry),
    }
}

/// Adds a dependency with a version to the table of its kind, making the
/// table when there is none. Fails, changing nothing, when the table is not
/// a table or the dependency is listed already.
pub fn add_dependency(doc: &mut toml_edit::DocumentMut, dependency: &str, version: &str, kind: DepKind) -> (r: Result<(), ManifestError>)
    ensures
        r matches Err(ManifestError::NotATable) <==> kind_at(manifest_items(*old(doc)), seq![table_name(kind)]) == ItemKind::Text
            || kind_at(manifest_items(*old(doc)), seq![table_name(kind)]) == ItemKind::Other,
        r matches Err(ManifestError::AlreadyListed) <==> !(r matches Err(ManifestError::NotATable))
            && kind_at(manifest_items(*old(doc)), seq![table_name(kind), dependency@]) != ItemKind::Missing,
        r is Err ==> (r matches Err(ManifestError::NotATable) || r matches Err(ManifestError::AlreadyListed)) && *final(doc) == *old(doc),
        r is Ok ==> manifest_items(*final(doc)) == added_items(manifest_items(*old(doc)), table_name(kind), dependency@, version@),
{
    let t = to_table_name(kind);
    let table_kind = item_kind(doc, t, None);
    if table_kind == ItemKind::Text || table_kind == ItemKind::Other {
        return Err(ManifestError::NotATable);
    }
    if item_kind(doc, t, Some(dependency)) != ItemKind::Missing {
        return Err(ManifestError::AlreadyListed);
    }
    ensure_table(doc, t);
    proof {
        let items = manifest_items(*old(doc));
        if table_kind == ItemKind::Missing {
            assert(manifest_items(*doc)[seq![t@]] == TomlItem::Table);
        }
    }
    set_text(doc, t, dependency, None, version);
    Ok(())
}

/// Parses a manifest text, or says why it does not parse.
fn parse_manifest(text: &str) -> (r: Result<toml_edit::DocumentMut, ManifestError>)
    ensures
        r is Ok <==> parsed_manifest(text@) is Some,
        r matches Ok(d) ==> parsed_manifest(text@) == Some(manifest_items(d)),
        r is Err ==> r matches Err(ManifestError::Parse(_)),
{
    match parse_document(text) {
        Ok(d) => Ok(d),
        Err(e) => Err(ManifestError::Parse(parse_error_message(&e))),
    }
}

/// Removes a dependency from a manifest text; on success gives the new
/// text, to be written back. An error leaves nothing to write.
pub fn dependency_remove(manifest: &str, dependency: &str, kind: DepKind) -> (r: Result<String, ManifestError>)
    ensures
        (r matches Err(ManifestError::Parse(_))) <==> parsed_manifest(manifest@) is None,
        parsed_manifest(manifest@) matches Some(items) ==> {
            &&& (r matches Err(ManifestError::NotListed)) <==> !listed(items, table_name(kind), dependency@)
            &&& r is Ok <==> listed(items, table_name(kind), dependency@)
            &&& r matches Ok(t) ==> parsed_manifest(t@) is Some && reads_back_as(
                parsed_manifest(t@)->0,
                without_subtree(items, seq![table_name(kind), dependency@]),
            )
        },
{
    let mut doc = parse_manifest(manifest)?;
    remove_dependency(&mut doc, dependency, kind)?;
    Ok(render(&doc))
}

/// Sets the version of a dependency in a manifest text; on success gives the
/// new text. An error leaves nothing to write.
pub fn dependency_upgrade_to_version(manifest: &str, dependency: &str, version: &str, kind: DepKind) -> (r: Result<String, ManifestError>)
    ensures
        (r matches Err(ManifestError::Parse(_))) <==> parsed_manifest(manifest@) is None,
        parsed_manifest(manifest@) matches Some(items) ==> {
            &&& (r matches Err(ManifestError::NotListed)) <==> !listed(items, table_name(kind), dependency@)
            &&& (r matches Err(ManifestError::UnexpectedEntry)) <==> listed(items, table_name(kind), dependency@)
                && kind_at(items, seq![table_name(kind), dependency@]) == ItemKind::Other
            &&& r is Ok <==> listed(items, table_name(kind), dependency@)
                && kind_at(items, seq![table_name(kind), dependency@]) != ItemKind::Other
            &&& r matches Ok(t) ==> parsed_manifest(t@) is Some && reads_back_as(
                parsed_manifest(t@)->0,
                upgraded_items(items, table_name(kind), dependency@, version@),
            )
        },
{
    let mut doc = parse_manifest(manifest)?;
    upgrade_dependency(&mut doc, dependency, version, kind)?;
    Ok(render(&doc))
}

/// Adds a dependency to a manifest text; on success gives the new text. An
/// error leaves nothing to write.
pub fn dependency_add(manifest: &str, dependency: &str, version: &str, kind: DepKind) -> (r: Result<String, ManifestError>)
    ensures
        (r matches Err(ManifestError::Parse(_))) <==> parsed_manifest(manifest@) is None,
        parsed_manifest(manifest@) matches Some(items) ==> {
            let tk = kind_at(items, seq![table_name(kind)]);
            let dk = kind_at(items, seq![table_name(kind), dependency@]);
            &&& (r matches Err(ManifestError::NotATable)) <==> (tk == ItemKind::Text || tk == ItemKind::Other)
            &&& (r matches Err(ManifestError::AlreadyListed)) <==> (tk == ItemKind::Missing || tk == ItemKind::TableLike)
                && dk != ItemKind::Missing
            &&& r is Ok <==> (tk == ItemKind::Missing || tk == ItemKind::TableLike) && dk == ItemKind::Missing
            &&& r matches Ok(t) ==> parsed_manifest(t@) is Some && reads_back_as(
                parsed_manifest(t@)->0,
                added_items(items, table_name(kind), dependency@, version@),
            )
        },
{
    let mut doc = parse_manifest(manifest)?;
    add_dependency(&mut doc, dependency, version, kind)?;
    Ok(render(&doc))
}

} // verus!
