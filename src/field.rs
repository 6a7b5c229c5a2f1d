//! The field model: the records that a walk of the document yields, which of
//! them a selection keeps, and where each one lands in the emitted tree.
use vstd::prelude::*;
use crate::comments::CommentMap;
use crate::ident::{ident_of, kebab_of, to_valid_ident, snake_to_kebab};
use crate::pattern::{render, Pattern};
use crate::text::{
    utf8_len, utf8_len_of, append_chars, chars_of, join_chars, join_with, split_chars, split_on, string_of, views,
};
use crate::value::TomlValue;

verus! {

#[verifier::external_type_specification]
#[verifier::external_body]
pub struct ExGlobSet(globset::GlobSet);

#[verifier::external_type_specification]
#[verifier::external_body]
pub struct ExGlobSetBuilder(globset::GlobSetBuilder);

/// Whether `globset::Glob::new` accepts a pattern.
pub uninterp spec fn glob_parses(pattern: Seq<char>) -> bool;

/// Whether a glob matches a candidate path.
pub uninterp spec fn glob_matches(pattern: Seq<char>, candidate: Seq<char>) -> bool;

/// Whether a glob set builds from these globs.
pub uninterp spec fn globs_build(patterns: Seq<Seq<char>>) -> bool;

/// The globs a set was built from, in order.
pub uninterp spec fn set_globs(set: globset::GlobSet) -> Seq<Seq<char>>;

/// The globs added to a builder, in order.
pub uninterp spec fn builder_globs(builder: globset::GlobSetBuilder) -> Seq<Seq<char>>;

/// The most characters that the globs of one set may hold together: the
/// literal automata of a set then stay far below their index limit.
pub const GLOB_SET_CHAR_LIMIT: usize = 268435456;

/// The characters of all the globs together.
pub open spec fn globs_char_len(patterns: Seq<Seq<char>>) -> nat
    decreases patterns.len(),
{
    if patterns.len() == 0 {
        0
    } else {
        globs_char_len(patterns.drop_last()) + patterns.last().len()
    }
}

/// Relies on `GlobSetBuilder::new`: a builder with no globs.
#[verifier::external_body]
pub(crate) fn glob_builder() -> (r: globset::GlobSetBuilder)
    ensures
        builder_globs(r) == Seq::<Seq<char>>::empty(),
{
    globset::GlobSetBuilder::new()
}

/// Relies on `globset::Glob::new` and `GlobSetBuilder::add`: the glob is
/// parsed and, when that succeeds, added last.
#[verifier::external_body]
pub(crate) fn add_glob(builder: &mut globset::GlobSetBuilder, pattern: &str) -> (r: bool)
    ensures
        r == glob_parses(pattern@),
        r ==> builder_globs(*final(builder)) == builder_globs(*old(builder)).push(pattern@),
        !r ==> builder_globs(*final(builder)) == builder_globs(*old(builder)),
{
    match globset::Glob::new(pattern) {
        Ok(glob) => {
            builder.add(glob);
            true
        },
        Err(_) => false,
    }
}

/// Relies on `GlobSetBuilder::build`, which returns an error where a matcher
/// cannot be built; it panics only where a literal automaton outgrows its
/// index type, which the bound on the globs' size rules out.
#[verifier::external_body]
pub(crate) fn build_glob_set(builder: &globset::GlobSetBuilder) -> (r: Option<globset::GlobSet>)
    requires
        globs_char_len(builder_globs(*builder)) <= GLOB_SET_CHAR_LIMIT,
    ensures
        r is Some <==> globs_build(builder_globs(*builder)),
        r matches Some(set) ==> set_globs(set) == builder_globs(*builder),
{
    builder.build().ok()
}

/// Relies on `GlobSet::is_match`: whether any glob of the set matches.
#[verifier::external_body]
fn set_is_match(set: &globset::GlobSet, candidate: &str) -> (r: bool)
    ensures
        r == (exists|i: int| 0 <= i < set_globs(*set).len() && glob_matches(set_globs(*set)[i], candidate@)),
{
    set.is_match(candidate)
}

/// Relies on `GlobSet::len`: the number of globs in the set.
#[verifier::external_body]
fn set_len(set: &globset::GlobSet) -> (r: usize)
    ensures
        r == set_globs(*set).len(),
{
    set.len()
}

pub open spec fn opt_view(o: Option<String>) -> Option<Seq<char>> {
    match o {
        Some(s) => Some(s@),
        None => None,
    }
}

/// A field as mathematical values.
pub ghost struct FieldModel {
    pub name: Seq<char>,
    pub value: TomlValue,
    pub path: Seq<char>,
    pub relative_path: Option<Seq<char>>,
    pub toml_path: Option<Seq<char>>,
    pub alias: Option<Seq<char>>,
    pub parent: Option<int>,
    pub comment: Option<Seq<char>>,
}

/// One node of the document, as the walk records it.
#[derive(Debug)]
pub struct TomlField<'a> {
    /// The identifier: the last segment of `path`.
    pub name: String,
    /// The document node.
    pub value: &'a TomlValue,
    /// The normalised dotted path, after alias rewriting.
    pub path: String,
    /// `path` without the segments of the pattern that placed it.
    pub relative_path: Option<String>,
    /// The dotted path as the document spells it.
    pub toml_path: Option<String>,
    pub alias: Option<String>,
    /// Index of the document parent in the field sequence.
    pub parent: Option<usize>,
    pub comment: Option<String>,
}

impl<'a> TomlField<'a> {
    pub open spec fn view(&self) -> FieldModel {
        FieldModel {
            name: self.name@,
            value: *self.value,
            path: self.path@,
            relative_path: opt_view(self.relative_path),
            toml_path: opt_view(self.toml_path),
            alias: opt_view(self.alias),
            parent: match self.parent {
                Some(p) => Some(p as int),
                None => None,
            },
            comment: opt_view(self.comment),
        }
    }

    pub fn new(name: &str, path: &str, value: &'a TomlValue, parent: Option<usize>) -> (r: Self)
        ensures
            r.view() == (FieldModel {
                name: name@,
                value: *value,
                path: path@,
                relative_path: None,
                toml_path: None,
                alias: None,
                parent: match parent {
                    Some(p) => Some(p as int),
                    None => None,
                },
                comment: None,
            }),
    {
        TomlField {
            name: String::from_str(name),
            value,
            path: String::from_str(path),
            relative_path: None,
            toml_path: None,
            alias: None,
            parent,
            comment: None,
        }
    }

    /// The record of the document's top level.
    pub fn root(value: &'a TomlValue) -> (r: Self)
        ensures
            r.view() == root_model(*value),
    {
        TomlField {
            name: String::new(),
            value,
            path: String::new(),
            relative_path: None,
            toml_path: None,
            alias: None,
            parent: None,
            comment: None,
        }
    }

    pub fn with_relative_path(self, relative_path: &str) -> (r: Self)
        ensures
            r.view() == (FieldModel { relative_path: Some(relative_path@), ..self.view() }),
    {
        TomlField { relative_path: Some(String::from_str(relative_path)), ..self }
    }

    pub fn with_toml_path(self, toml_path: &str) -> (r: Self)
        ensures
            r.view() == (FieldModel { toml_path: Some(toml_path@), ..self.view() }),
    {
        TomlField { toml_path: Some(String::from_str(toml_path)), ..self }
    }

    pub fn with_comment(self, comment: &str) -> (r: Self)
        ensures
            r.view() == (FieldModel { comment: Some(comment@), ..self.view() }),
    {
        TomlField { comment: Some(String::from_str(comment)), ..self }
    }

    /// Records an alias; the empty alias records nothing.
    pub fn with_alias(self, alias: &str) -> (r: Self)
        ensures
            r.view() == (if alias@.len() == 0 {
                self.view()
            } else {
                FieldModel { alias: Some(alias@), ..self.view() }
            }),
    {
        let a = String::from_str(alias);
        if a.as_str().is_empty() {
            return self;
        }
        TomlField { alias: Some(a), ..self }
    }

    pub fn with_path(self, path: &str) -> (r: Self)
        ensures
            r.view() == (FieldModel { path: path@, ..self.view() }),
    {
        TomlField { path: String::from_str(path), ..self }
    }

    pub fn with_name(self, name: &str) -> (r: Self)
        ensures
            r.view() == (FieldModel { name: name@, ..self.view() }),
    {
        TomlField { name: String::from_str(name), ..self }
    }

    pub fn with_value(self, value: &'a TomlValue) -> (r: Self)
        ensures
            r.view() == (FieldModel { value: *value, ..self.view() }),
    {
        TomlField { value, ..self }
    }

    pub fn with_parent(self, parent: usize) -> (r: Self)
        ensures
            r.view() == (FieldModel { parent: Some(parent as int), ..self.view() }),
    {
        TomlField { parent: Some(parent), ..self }
    }

    /// Whether the node is a table.
    pub fn is_table(&self) -> (r: bool)
        ensures
            r == (*self.value is Table),
    {
        self.value.is_table()
    }
}

pub open spec fn root_model(v: TomlValue) -> FieldModel {
    FieldModel {
        name: Seq::empty(),
        value: v,
        path: Seq::empty(),
        relative_path: None,
        toml_path: None,
        alias: None,
        parent: None,
        comment: None,
    }
}

/// The glob sets and literal patterns of one selection.
pub struct Patterns {
    pub inclusions: Option<globset::GlobSet>,
    pub exclusions: Option<globset::GlobSet>,
    /// The pattern strings, exclusions prefixed with `!`.
    pub literals: Vec<String>,
}

pub open spec fn globs_of(o: Option<globset::GlobSet>) -> Seq<Seq<char>> {
    match o {
        Some(set) => set_globs(set),
        None => Seq::empty(),
    }
}

pub open spec fn views_of_strings(v: Seq<String>) -> Seq<Seq<char>> {
    Seq::new(v.len(), |i: int| v[i]@)
}

impl Patterns {
    pub fn new() -> (r: Patterns)
        ensures
            r.inclusions is None,
            r.exclusions is None,
            r.literals@.len() == 0,
    {
        Patterns { inclusions: None, exclusions: None, literals: Vec::new() }
    }

    pub fn with_inclusions(self, inclusions: Option<globset::GlobSet>) -> (r: Patterns)
        ensures
            r == (Patterns { inclusions, ..self }),
    {
        Patterns { inclusions, ..self }
    }

    pub fn with_exclusions(self, exclusions: Option<globset::GlobSet>) -> (r: Patterns)
        ensures
            r == (Patterns { exclusions, ..self }),
    {
        Patterns { exclusions, ..self }
    }

    pub fn with_literals(self, literals: Vec<String>) -> (r: Patterns)
        ensures
            r == (Patterns { literals, ..self }),
    {
        Patterns { literals, ..self }
    }
}

/// What a walk of the document consults.
pub ghost struct Selection {
    pub inclusions: Seq<Seq<char>>,
    pub exclusions: Seq<Seq<char>>,
    /// Each alias as (alias glob string, source glob string).
    pub aliases: Seq<(Seq<char>, Seq<char>)>,
}

pub open spec fn some_glob_hits(globs: Seq<Seq<char>>, path: Seq<char>) -> bool {
    exists|i: int| 0 <= i < globs.len() && glob_matches(globs[i], path)
}

/// A leaf path passes the selection: an inclusion matches or there are none,
/// and no exclusion matches.
pub open spec fn selected(sel: Selection, path: Seq<char>) -> bool {
    (sel.inclusions.len() == 0 || some_glob_hits(sel.inclusions, path)) && !some_glob_hits(
        sel.exclusions,
        path,
    )
}

pub open spec fn alias_hit(aliases: Seq<(Seq<char>, Seq<char>)>, raw: Seq<char>, i: int) -> bool {
    aliases[i].1 == raw || aliases[i].1 == ident_of(raw)
}

pub open spec fn first_alias(aliases: Seq<(Seq<char>, Seq<char>)>, raw: Seq<char>, i: int) -> bool {
    &&& 0 <= i < aliases.len()
    &&& alias_hit(aliases, raw, i)
    &&& forall|j: int| 0 <= j < i ==> !alias_hit(aliases, raw, j)
}

/// The first alias whose source is the document path, raw or normalised.
pub open spec fn alias_index(aliases: Seq<(Seq<char>, Seq<char>)>, raw: Seq<char>) -> Option<int> {
    if exists|i: int| first_alias(aliases, raw, i) {
        Some(choose|i: int| first_alias(aliases, raw, i))
    } else {
        None
    }
}

/// `raw` with its last segment replaced by `alias`.
pub open spec fn aliased_path(raw: Seq<char>, alias: Seq<char>) -> Seq<char> {
    join_with(split_on(raw, '.').drop_last(), seq!['.']) + seq!['.'] + alias
}

pub open spec fn last_segment(path: Seq<char>) -> Seq<char> {
    split_on(path, '.').last()
}

/// The normalised path of the node at document path `raw`.
pub open spec fn field_path(sel: Selection, raw: Seq<char>) -> Seq<char> {
    match alias_index(sel.aliases, raw) {
        Some(i) => ident_of(aliased_path(raw, sel.aliases[i].0)),
        None => ident_of(raw),
    }
}

/// The alias that a field records: a wildcard or empty alias records none.
pub open spec fn recorded_alias(sel: Selection, raw: Seq<char>) -> Option<Seq<char>> {
    match alias_index(sel.aliases, raw) {
        Some(i) => if sel.aliases[i].0 == seq!['*'] || sel.aliases[i].0.len() == 0 {
            None
        } else {
            Some(sel.aliases[i].0)
        },
        None => None,
    }
}

pub open spec fn child_path(path: Seq<char>, key: Seq<char>) -> Seq<char> {
    if path.len() == 0 {
        key
    } else {
        path + seq!['.'] + key
    }
}

/// The record of a node other than the top level.
pub open spec fn node_model(sel: Selection, v: TomlValue, raw: Seq<char>, doc: Seq<char>, parent: int) -> FieldModel {
    let path = field_path(sel, raw);
    FieldModel {
        name: last_segment(path),
        value: v,
        path,
        relative_path: None,
        toml_path: Some(doc),
        alias: recorded_alias(sel, raw),
        parent: Some(parent),
        comment: None,
    }
}

/// A leaf is kept when its path passes the selection (or is the top level's).
pub open spec fn leaf_kept(sel: Selection, path: Seq<char>) -> bool {
    path.len() == 0 || selected(sel, path)
}

/// The records that a walk of `v` appends to `fs`: `v` is reached at walk
/// path `raw` (its parent's normalised path and its own key) and document
/// path `doc` (every key as the document spells it), under the record at
/// `parent`.
pub open spec fn walk(fs: Seq<FieldModel>, v: TomlValue, raw: Seq<char>, doc: Seq<char>, parent: int, sel: Selection) -> Seq<FieldModel>
    decreases v, 0nat,
{
    let is_root = parent == 0 && fs.len() == 0;
    let rec = if is_root {
        root_model(v)
    } else {
        node_model(sel, v, raw, doc, parent)
    };
    let idx = if is_root {
        0
    } else {
        fs.len() as int
    };
    let path = field_path(sel, raw);
    match v {
        TomlValue::Table(es, _) => walk_entries(fs.push(rec), es@, path, doc, idx, sel),
        _ => {
            if leaf_kept(sel, path) {
                fs.push(rec)
            } else if alias_index(sel.aliases, raw) is Some {
                fs.push(FieldModel { path: rec.name, ..rec })
            } else {
                fs
            }
        },
    }
}

/// The walk of a table's entries, in order.
pub open spec fn walk_entries(fs: Seq<FieldModel>, es: Seq<(String, TomlValue)>, path: Seq<char>, doc: Seq<char>, idx: int, sel: Selection) -> Seq<FieldModel>
    decreases es, 1nat,
{
    if es.len() == 0 {
        fs
    } else {
        walk(
            walk_entries(fs, es.drop_last(), path, doc, idx, sel),
            es.last().1,
            child_path(path, es.last().0@),
            child_path(doc, es.last().0@),
            idx,
            sel,
        )
    }
}

pub open spec fn models<'a>(fs: Seq<TomlField<'a>>) -> Seq<FieldModel> {
    Seq::new(fs.len(), |i: int| fs[i].view())
}

/// The fields of one selection over one document.
pub struct TomlFields<'a> {
    pub root_value: Option<&'a TomlValue>,
    pub fields: Vec<TomlField<'a>>,
    pub patterns: Patterns,
    /// Each alias with its source pattern.
    pub aliases: Option<Vec<(Pattern, Pattern)>>,
    pub comments: Option<CommentMap>,
}

pub open spec fn alias_strings(o: Option<Vec<(Pattern, Pattern)>>) -> Seq<(Seq<char>, Seq<char>)> {
    match o {
        Some(v) => Seq::new(v@.len(), |i: int| (render(v@[i].0.view()), render(v@[i].1.view()))),
        None => Seq::empty(),
    }
}

impl<'a> TomlFields<'a> {
    pub open spec fn selection(&self) -> Selection {
        Selection {
            inclusions: globs_of(self.patterns.inclusions),
            exclusions: globs_of(self.patterns.exclusions),
            aliases: alias_strings(self.aliases),
        }
    }

    pub open spec fn records(&self) -> Seq<FieldModel> {
        models(self.fields@)
    }

    pub fn new() -> (r: Self)
        ensures
            r.root_value is None,
            r.fields@.len() == 0,
            r.patterns.inclusions is None,
            r.patterns.exclusions is None,
            r.patterns.literals@.len() == 0,
            r.aliases is None,
            r.comments is None,
    {
        TomlFields {
            root_value: None,
            fields: Vec::new(),
            patterns: Patterns::new(),
            aliases: None,
            comments: None,
        }
    }

    fn passes(&self, path: &String) -> (r: bool)
        ensures
            r == selected(self.selection(), path@),
    {
        let included = match &self.patterns.inclusions {
            None => true,
            Some(set) => set_len(set) == 0 || set_is_match(set, path.as_str()),
        };
        let excluded = match &self.patterns.exclusions {
            None => false,
            Some(set) => set_is_match(set, path.as_str()),
        };
        included && !excluded
    }

    /// The first alias whose source is `raw` or its normalised form, as
    /// (alias string, source string).
    fn find_alias(&self, raw: &str) -> (r: Option<(String, String)>)
        ensures
            match r {
                Some((a, s)) => alias_index(self.selection().aliases, raw@) matches Some(i)
                    && self.selection().aliases[i] == (a@, s@),
                None => alias_index(self.selection().aliases, raw@) is None,
            },
    {
        let ghost al = self.selection().aliases;
        match &self.aliases {
            None => None,
            Some(list) => {
                let raw_s = String::from_str(raw);
                let processed = to_valid_ident(raw);
                let mut i: usize = 0;
                while i < list.len()
                    invariant
                        self.aliases == Some(*list),
                        al == self.selection().aliases,
                        i <= list@.len(),
                        raw_s@ == raw@,
                        processed@ == ident_of(raw@),
                        forall|j: int| 0 <= j < i ==> !alias_hit(al, raw@, j),
                    decreases list.len() - i,
                {
                    let orig = list[i].1.to_string();
                    if raw_s == orig || processed == orig {
                        let alias = list[i].0.to_string();
                        assert(first_alias(al, raw@, i as int));
                        proof {
                            let k = choose|k: int| first_alias(al, raw@, k);
                            assert(k == i) by {
                                if k < i {
                                    assert(!alias_hit(al, raw@, k));
                                }
                                if k > i {
                                    assert(alias_hit(al, raw@, i as int));
                                }
                            }
                        }
                        return Some((alias, orig));
                    }
                    i = i + 1;
                }
                None
            },
        }
    }

    /// Walks `value`, reached at path `_path` under the record at
    /// `parent_idx`, appending a record for each table and each kept leaf
    /// (see `walk`).
    pub fn extract_matched_paths_from_value(&mut self, value: &'a TomlValue, _path: &str, parent_idx: usize)
        ensures
            final(self).records() == walk(old(self).records(), *value, _path@, _path@, parent_idx as int, old(self).selection()),
            final(self).root_value == old(self).root_value,
            final(self).patterns == old(self).patterns,
            final(self).aliases == old(self).aliases,
            final(self).comments == old(self).comments,
    {
        self.walk_node(value, _path, _path, parent_idx);
    }

    fn walk_node(&mut self, value: &'a TomlValue, _path: &str, doc: &str, parent_idx: usize)
        ensures
            final(self).records() == walk(old(self).records(), *value, _path@, doc@, parent_idx as int, old(self).selection()),
            final(self).root_value == old(self).root_value,
            final(self).patterns == old(self).patterns,
            final(self).aliases == old(self).aliases,
            final(self).comments == old(self).comments,
        decreases value,
    {
        let ghost sel = self.selection();
        let ghost base = self.records();
        let alias = self.find_alias(_path);
        let aliased = match &alias {
            Some((a, _)) => aliased_path_of(_path, a),
            None => String::from_str(_path),
        };
        let path = to_valid_ident(aliased.as_str());
        let doc_s = String::from_str(doc);
        assert(path@ == field_path(sel, _path@));
        let is_root = parent_idx == 0 && self.fields.len() == 0;
        let field_idx: usize = if is_root {
            0
        } else {
            self.fields.len()
        };
        let mut field = if is_root {
            TomlField::root(value)
        } else {
            let star = String::from_str("*");
            proof {
                reveal_strlit("*");
            }
            assert(star@ =~= seq!['*']);
            let alias_name: String = match &alias {
                Some((a, _)) => if *a == star {
                    String::new()
                } else {
                    a.clone()
                },
                None => String::new(),
            };
            assert(alias_name@.len() == 0 ==> recorded_alias(sel, _path@) is None);
            assert(alias_name@.len() != 0 ==> recorded_alias(sel, _path@) == Some(alias_name@));
            let name = last_segment_of(&path);
            TomlField::new(name.as_str(), path.as_str(), value, Some(parent_idx)).with_alias(
                alias_name.as_str(),
            ).with_toml_path(doc)
        };
        let ghost rec = field.view();
        assert(rec == (if is_root {
            root_model(*value)
        } else {
            node_model(sel, *value, _path@, doc@, parent_idx as int)
        }));
        match value {
            TomlValue::Table(es, _) => {
                self.fields.push(field);
                assert(self.records() =~= base.push(rec));
                assert(es@.subrange(0, 0) =~= Seq::<(String, TomlValue)>::empty());
                let mut i: usize = 0;
                while i < es.len()
                    invariant
                        *value is Table,
                        value->Table_0 == *es,
                        i <= es@.len(),
                        sel == self.selection(),
                        path@ == field_path(sel, _path@),
                        doc_s@ == doc@,
                        self.records() == walk_entries(base.push(rec), es@.subrange(0, i as int), path@, doc@, field_idx as int, sel),
                        self.root_value == old(self).root_value,
                        self.patterns == old(self).patterns,
                        self.aliases == old(self).aliases,
                        self.comments == old(self).comments,
                    decreases es.len() - i,
                {
                    let new_path = child_path_of(&path, &es[i].0);
                    let new_doc = child_path_of(&doc_s, &es[i].0);
                    proof {
                        assert(decreases_to!(es => es[i as int]));
                    }
                    self.walk_node(&es[i].1, new_path.as_str(), new_doc.as_str(), field_idx);
                    assert(es@.subrange(0, i + 1).drop_last() =~= es@.subrange(0, i as int));
                    i = i + 1;
                }
                assert(es@.subrange(0, es@.len() as int) =~= es@);
            },
            _ => {
                let kept = path.as_str().is_empty() || self.passes(&path);
                if kept {
                    self.fields.push(field);
                    assert(self.records() =~= base.push(rec));
                } else if alias.is_some() {
                    field.path = field.name.clone();
                    self.fields.push(field);
                    assert(self.records() =~= base.push(FieldModel { path: rec.name, ..rec }));
                }
            },
        }
    }
}

/// `raw` with its last segment replaced by `alias` (see `aliased_path`).
fn aliased_path_of(raw: &str, alias: &String) -> (r: String)
    ensures
        r@ == aliased_path(raw@, alias@),
{
    let mut segs = split_chars(&chars_of(raw), '.');
    let ghost all = views(segs@);
    proof {
        crate::text::lemma_split_nonempty(raw@, '.');
    }
    segs.pop();
    assert(views(segs@) =~= all.drop_last());
    let dot = vec!['.'];
    assert(dot@ =~= seq!['.']);
    let mut out = join_chars(&segs, &dot);
    out.push('.');
    append_chars(&mut out, &chars_of(alias.as_str()));
    string_of(&out)
}

pub(crate) fn last_segment_of(path: &String) -> (r: String)
    ensures
        r@ == last_segment(path@),
{
    let segs = split_chars(&chars_of(path.as_str()), '.');
    proof {
        crate::text::lemma_split_nonempty(path@, '.');
    }
    string_of(&segs[segs.len() - 1])
}

fn child_path_of(path: &String, key: &String) -> (r: String)
    ensures
        r@ == child_path(path@, key@),
{
    if path.as_str().is_empty() {
        return key.clone();
    }
    let mut out = chars_of(path.as_str());
    out.push('.');
    append_chars(&mut out, &chars_of(key.as_str()));
    string_of(&out)
}

/// The non-empty segments of `segs` that are not in `drop`, in order.
pub open spec fn kept_segments(segs: Seq<Seq<char>>, drop: Seq<Seq<char>>) -> Seq<Seq<char>>
    decreases segs.len(),
{
    if segs.len() == 0 {
        Seq::empty()
    } else {
        let prev = kept_segments(segs.drop_last(), drop);
        if segs.last().len() > 0 && !drop.contains(segs.last()) {
            prev.push(segs.last())
        } else {
            prev
        }
    }
}

/// What is left of `path` once every segment that occurs in `pat` is dropped.
pub open spec fn residue(path: Seq<char>, pat: Seq<char>) -> Seq<char> {
    join_with(
        kept_segments(split_on(path, '.'), kept_segments(split_on(pat, '.'), Seq::empty())),
        seq!['.'],
    )
}

/// The shortest residue of `path`, counted in UTF-8 bytes, over the patterns
/// that are not negated; the first of equally short ones.
pub open spec fn best_residue(literals: Seq<Seq<char>>, path: Seq<char>) -> Option<Seq<char>>
    decreases literals.len(),
{
    if literals.len() == 0 {
        None
    } else {
        let prev = best_residue(literals.drop_last(), path);
        let pat = literals.last();
        if pat.len() > 0 && pat[0] == '!' {
            prev
        } else {
            let r = residue(path, pat);
            match prev {
                Some(b) => if utf8_len(b) > utf8_len(r) {
                    Some(r)
                } else {
                    Some(b)
                },
                None => Some(r),
            }
        }
    }
}

pub open spec fn with_relative(fs: Seq<FieldModel>, literals: Seq<Seq<char>>) -> Seq<FieldModel> {
    Seq::new(
        fs.len(),
        |i: int|
            match best_residue(literals, fs[i].path) {
                Some(r) => FieldModel { relative_path: Some(r), ..fs[i] },
                None => fs[i],
            },
    )
}

pub open spec fn first_with_path(fs: Seq<FieldModel>, path: Seq<char>, i: int) -> bool {
    &&& 0 <= i < fs.len()
    &&& fs[i].path == path
    &&& forall|j: int| 0 <= j < i ==> fs[j].path != path
}

/// The first field whose path is `path`.
pub open spec fn path_index(fs: Seq<FieldModel>, path: Seq<char>) -> Option<int> {
    if exists|i: int| first_with_path(fs, path, i) {
        Some(choose|i: int| first_with_path(fs, path, i))
    } else {
        None
    }
}

/// Each alias recorded on the first field whose path is its source.
pub open spec fn attach_aliases(fs: Seq<FieldModel>, aliases: Seq<(Seq<char>, Seq<char>)>) -> Seq<FieldModel>
    decreases aliases.len(),
{
    if aliases.len() == 0 {
        fs
    } else {
        let prev = attach_aliases(fs, aliases.drop_last());
        let (a, o) = aliases.last();
        match path_index(prev, o) {
            Some(j) => prev.update(j, FieldModel { alias: Some(a), ..prev[j] }),
            None => prev,
        }
    }
}

/// The comment found under the absolute path, the absolute path with dashes,
/// the document path, or the document path with dashes, in that order.
pub open spec fn comment_lookup(c: Map<Seq<char>, Seq<char>>, path: Seq<char>, toml_path: Option<Seq<char>>) -> Option<Seq<char>> {
    if c.contains_key(path) {
        Some(c[path])
    } else if c.contains_key(kebab_of(path)) {
        Some(c[kebab_of(path)])
    } else {
        match toml_path {
            Some(t) => if c.contains_key(t) {
                Some(c[t])
            } else if c.contains_key(kebab_of(t)) {
                Some(c[kebab_of(t)])
            } else {
                None
            },
            None => None,
        }
    }
}

pub open spec fn with_comments(fs: Seq<FieldModel>, c: Option<Map<Seq<char>, Seq<char>>>) -> Seq<FieldModel> {
    Seq::new(
        fs.len(),
        |i: int|
            match c {
                Some(m) => match comment_lookup(m, fs[i].path, fs[i].toml_path) {
                    Some(x) => FieldModel { comment: Some(x), ..fs[i] },
                    None => fs[i],
                },
                None => fs[i],
            },
    )
}

pub open spec fn comments_view(c: Option<CommentMap>) -> Option<Map<Seq<char>, Seq<char>>> {
    match c {
        Some(m) => Some(m.view()),
        None => None,
    }
}

pub open spec fn comments_wf(c: Option<CommentMap>) -> bool {
    match c {
        Some(m) => m.wf(),
        None => true,
    }
}

/// The records of a whole build: the walk from the top level, then relative
/// paths, aliases and comments.
pub open spec fn built(fs: Seq<FieldModel>, root: TomlValue, sel: Selection, literals: Seq<Seq<char>>, c: Option<Map<Seq<char>, Seq<char>>>) -> Seq<FieldModel> {
    with_comments(
        attach_aliases(with_relative(walk(fs, root, Seq::empty(), Seq::empty(), 0, sel), literals), sel.aliases),
        c,
    )
}

fn same_chars(a: &Vec<char>, b: &Vec<char>) -> (r: bool)
    ensures
        r == (a@ == b@),
{
    if a.len() != b.len() {
        return false;
    }
    let mut i: usize = 0;
    while i < a.len()
        invariant
            i <= a@.len() == b@.len(),
            forall|j: int| 0 <= j < i ==> a@[j] == b@[j],
        decreases a.len() - i,
    {
        if a[i] != b[i] {
            return false;
        }
        i = i + 1;
    }
    assert(a@ =~= b@);
    true
}

fn contains_chars(list: &Vec<Vec<char>>, s: &Vec<char>) -> (r: bool)
    ensures
        r == views(list@).contains(s@),
{
    let mut i: usize = 0;
    while i < list.len()
        invariant
            i <= list@.len(),
            forall|j: int| 0 <= j < i ==> views(list@)[j] != s@,
        decreases list.len() - i,
    {
        if same_chars(&list[i], s) {
            assert(views(list@)[i as int] == s@);
            return true;
        }
        i = i + 1;
    }
    false
}

fn keep_segments(segs: &Vec<Vec<char>>, drop: &Vec<Vec<char>>) -> (r: Vec<Vec<char>>)
    ensures
        views(r@) == kept_segments(views(segs@), views(drop@)),
{
    let mut out: Vec<Vec<char>> = Vec::new();
    let mut i: usize = 0;
    while i < segs.len()
        invariant
            i <= segs@.len(),
            views(out@) == kept_segments(views(segs@).subrange(0, i as int), views(drop@)),
        decreases segs.len() - i,
    {
        let ghost before = views(out@);
        assert(views(segs@).subrange(0, i + 1).drop_last() =~= views(segs@).subrange(0, i as int));
        if segs[i].len() > 0 && !contains_chars(drop, &segs[i]) {
            let c = crate::text::slice_chars(&segs[i], 0, segs[i].len());
            assert(segs@[i as int]@.subrange(0, segs@[i as int]@.len() as int) =~= segs@[i as int]@);
            out.push(c);
            assert(views(out@) =~= before.push(c@));
        }
        i = i + 1;
    }
    assert(views(segs@).subrange(0, segs@.len() as int) =~= views(segs@));
    out
}

fn residue_of(path: &String, pat: &String) -> (r: Vec<char>)
    ensures
        r@ == residue(path@, pat@),
{
    let none: Vec<Vec<char>> = Vec::new();
    assert(views(none@) =~= Seq::<Seq<char>>::empty());
    let pat_segs = keep_segments(&split_chars(&chars_of(pat.as_str()), '.'), &none);
    let kept = keep_segments(&split_chars(&chars_of(path.as_str()), '.'), &pat_segs);
    let dot = vec!['.'];
    assert(dot@ =~= seq!['.']);
    join_chars(&kept, &dot)
}

impl<'a> TomlField<'a> {
    pub fn duplicate(&self) -> (r: Self)
        ensures
            r.view() == self.view(),
    {
        TomlField {
            name: self.name.clone(),
            value: self.value,
            path: self.path.clone(),
            relative_path: copy_opt(&self.relative_path),
            toml_path: copy_opt(&self.toml_path),
            alias: copy_opt(&self.alias),
            parent: self.parent,
            comment: copy_opt(&self.comment),
        }
    }
}

fn copy_opt(o: &Option<String>) -> (r: Option<String>)
    ensures
        opt_view(r) == opt_view(*o),
{
    match o {
        Some(s) => Some(s.clone()),
        None => None,
    }
}

fn lookup_comment(c: &CommentMap, path: &String, toml_path: &Option<String>) -> (r: Option<String>)
    requires
        c.wf(),
    ensures
        opt_view(r) == comment_lookup(c.view(), path@, opt_view(*toml_path)),
{
    if let Some(x) = c.get(path.as_str()) {
        return Some(x.clone());
    }
    let k = snake_to_kebab(path.as_str());
    if let Some(x) = c.get(k.as_str()) {
        return Some(x.clone());
    }
    match toml_path {
        Some(t) => {
            if let Some(x) = c.get(t.as_str()) {
                return Some(x.clone());
            }
            let kt = snake_to_kebab(t.as_str());
            if let Some(x) = c.get(kt.as_str()) {
                return Some(x.clone());
            }
            None
        },
        None => None,
    }
}

impl<'a> TomlFields<'a> {
    /// The shortest residue of `path` over the selection's patterns (see
    /// `best_residue`).
    fn get_relative_path(&self, path: &String) -> (r: Option<String>)
        ensures
            opt_view(r) == best_residue(views_of_strings(self.patterns.literals@), path@),
    {
        let lits = &self.patterns.literals;
        let ghost ls = views_of_strings(lits@);
        let mut best: Option<Vec<char>> = None;
        let mut i: usize = 0;
        while i < lits.len()
            invariant
                i <= lits@.len(),
                ls == views_of_strings(lits@),
                match best {
                    Some(b) => best_residue(ls.subrange(0, i as int), path@) == Some(b@),
                    None => best_residue(ls.subrange(0, i as int), path@) is None,
                },
            decreases lits.len() - i,
        {
            assert(ls.subrange(0, i + 1).drop_last() =~= ls.subrange(0, i as int));
            let pat = chars_of(lits[i].as_str());
            if !(pat.len() > 0 && pat[0] == '!') {
                let r = residue_of(path, &lits[i]);
                let replace = match &best {
                    Some(b) => utf8_len_of(b) > utf8_len_of(&r),
                    None => true,
                };
                if replace {
                    best = Some(r);
                }
            }
            i = i + 1;
        }
        assert(ls.subrange(0, lits@.len() as int) =~= ls);
        match best {
            Some(b) => Some(string_of(&b)),
            None => None,
        }
    }

    fn attach_relative_paths(&mut self)
        ensures
            final(self).records() == with_relative(old(self).records(), views_of_strings(old(self).patterns.literals@)),
            final(self).root_value == old(self).root_value,
            final(self).patterns == old(self).patterns,
            final(self).aliases == old(self).aliases,
            final(self).comments == old(self).comments,
    {
        let ghost lits = views_of_strings(self.patterns.literals@);
        let mut out: Vec<TomlField<'a>> = Vec::new();
        let mut i: usize = 0;
        while i < self.fields.len()
            invariant
                i <= self.fields@.len(),
                *self == *old(self),
                lits == views_of_strings(self.patterns.literals@),
                models(out@) == with_relative(self.records(), lits).subrange(0, i as int),
            decreases self.fields.len() - i,
        {
            let f = self.fields[i].duplicate();
            let g = match self.get_relative_path(&f.path) {
                Some(rel) => TomlField { relative_path: Some(rel), ..f },
                None => f,
            };
            let ghost before = models(out@);
            out.push(g);
            assert(models(out@) =~= before.push(g.view()));
            i = i + 1;
            assert(models(out@) =~= with_relative(self.records(), lits).subrange(0, i as int));
        }
        assert(with_relative(self.records(), lits).subrange(0, self.fields@.len() as int) =~= with_relative(self.records(), lits));
        self.fields = out;
    }

    fn position_of_path(&self, path: &String) -> (r: Option<usize>)
        ensures
            match r {
                Some(j) => path_index(self.records(), path@) == Some(j as int) && j < self.fields@.len(),
                None => path_index(self.records(), path@) is None,
            },
    {
        let mut j: usize = 0;
        while j < self.fields.len()
            invariant
                j <= self.fields@.len(),
                forall|k: int| 0 <= k < j ==> self.records()[k].path != path@,
            decreases self.fields.len() - j,
        {
            if self.fields[j].path == *path {
                assert(first_with_path(self.records(), path@, j as int));
                proof {
                    let k = choose|k: int| first_with_path(self.records(), path@, k);
                    assert(k == j) by {
                        if k < j {
                            assert(self.records()[k].path != path@);
                        }
                    }
                }
                return Some(j);
            }
            j = j + 1;
        }
        None
    }

    fn attach_aliases(&mut self)
        ensures
            final(self).records() == attach_aliases(old(self).records(), old(self).selection().aliases),
            final(self).root_value == old(self).root_value,
            final(self).patterns == old(self).patterns,
            final(self).aliases == old(self).aliases,
            final(self).comments == old(self).comments,
    {
        let ghost al = self.selection().aliases;
        let ghost start = self.records();
        match &self.aliases {
            None => {
                assert(al.len() == 0);
            },
            Some(list) => {
                let mut k: usize = 0;
                while k < list.len()
                    invariant
                        self.aliases == Some(*list),
                        old(self).aliases == Some(*list),
                        al == alias_strings(self.aliases),
                        k <= list@.len(),
                        self.records() == attach_aliases(start, al.subrange(0, k as int)),
                        self.root_value == old(self).root_value,
                        self.patterns == old(self).patterns,
                        self.comments == old(self).comments,
                    decreases list.len() - k,
                {
                    assert(al.subrange(0, k + 1).drop_last() =~= al.subrange(0, k as int));
                    let orig = list[k].1.to_string();
                    let ghost prev = self.records();
                    match self.position_of_path(&orig) {
                        Some(j) => {
                            let f = self.fields[j].duplicate();
                            let g = TomlField { alias: Some(list[k].0.to_string()), ..f };
                            self.fields.set(j, g);
                            assert(self.records() =~= prev.update(j as int, FieldModel { alias: Some(al[k as int].0), ..prev[j as int] }));
                        },
                        None => {},
                    }
                    k = k + 1;
                }
                assert(al.subrange(0, list@.len() as int) =~= al);
            },
        }
    }

    fn attach_comments(&mut self)
        requires
            comments_wf(old(self).comments),
        ensures
            final(self).records() == with_comments(old(self).records(), comments_view(old(self).comments)),
            final(self).root_value == old(self).root_value,
            final(self).patterns == old(self).patterns,
            final(self).aliases == old(self).aliases,
            final(self).comments == old(self).comments,
    {
        let ghost cv = comments_view(self.comments);
        let mut out: Vec<TomlField<'a>> = Vec::new();
        let mut i: usize = 0;
        while i < self.fields.len()
            invariant
                i <= self.fields@.len(),
                *self == *old(self),
                cv == comments_view(self.comments),
                comments_wf(self.comments),
                models(out@) == with_comments(self.records(), cv).subrange(0, i as int),
            decreases self.fields.len() - i,
        {
            let f = self.fields[i].duplicate();
            let g = match &self.comments {
                Some(c) => match lookup_comment(c, &f.path, &f.toml_path) {
                    Some(x) => TomlField { comment: Some(x), ..f },
                    None => f,
                },
                None => f,
            };
            let ghost before = models(out@);
            out.push(g);
            assert(models(out@) =~= before.push(g.view()));
            i = i + 1;
            assert(models(out@) =~= with_comments(self.records(), cv).subrange(0, i as int));
        }
        assert(with_comments(self.records(), cv).subrange(0, self.fields@.len() as int) =~= with_comments(self.records(), cv));
        self.fields = out;
    }

    /// Builds the field sequence: walks the document from its top level, then
    /// records relative paths, aliases and comments (see `built`).
    pub fn build(self) -> (r: Self)
        requires
            self.root_value is Some,
            comments_wf(self.comments),
        ensures
            r.records() == built(
                self.records(),
                *self.root_value->Some_0,
                self.selection(),
                views_of_strings(self.patterns.literals@),
                comments_view(self.comments),
            ),
            r.root_value == self.root_value,
            r.patterns == self.patterns,
            r.aliases == self.aliases,
            r.comments == self.comments,
    {
        let mut this = self;
        let root = this.root_value.unwrap();
        let top = String::new();
        this.extract_matched_paths_from_value(root, top.as_str(), 0);
        this.attach_relative_paths();
        this.attach_aliases();
        this.attach_comments();
        this
    }

    pub fn with_root(self, value: &'a TomlValue) -> (r: Self)
        ensures
            r == (TomlFields { root_value: Some(value), ..self }),
    {
        TomlFields { root_value: Some(value), ..self }
    }

    pub fn with_aliases(self, aliases: Option<Vec<(Pattern, Pattern)>>) -> (r: Self)
        ensures
            r == (TomlFields { aliases, ..self }),
    {
        TomlFields { aliases, ..self }
    }

    pub fn with_inclusion_globs(self, inclusion_globs: Option<globset::GlobSet>) -> (r: Self)
        ensures
            r == (TomlFields { patterns: Patterns { inclusions: inclusion_globs, ..self.patterns }, ..self }),
    {
        let TomlFields { root_value, fields, patterns, aliases, comments } = self;
        TomlFields { root_value, fields, patterns: patterns.with_inclusions(inclusion_globs), aliases, comments }
    }

    pub fn with_exclusion_globs(self, exclusion_globs: Option<globset::GlobSet>) -> (r: Self)
        ensures
            r == (TomlFields { patterns: Patterns { exclusions: exclusion_globs, ..self.patterns }, ..self }),
    {
        let TomlFields { root_value, fields, patterns, aliases, comments } = self;
        TomlFields { root_value, fields, patterns: patterns.with_exclusions(exclusion_globs), aliases, comments }
    }

    pub fn with_pat_literals(self, patterns: Vec<String>) -> (r: Self)
        ensures
            r == (TomlFields { patterns: Patterns { literals: patterns, ..self.patterns }, ..self }),
    {
        let TomlFields { root_value, fields, patterns: p, aliases, comments } = self;
        TomlFields { root_value, fields, patterns: p.with_literals(patterns), aliases, comments }
    }

    pub fn with_comments(self, comments: CommentMap) -> (r: Self)
        ensures
            r == (TomlFields { comments: Some(comments), ..self }),
    {
        TomlFields { comments: Some(comments), ..self }
    }
}

/// The segments of the relative path if there is one, else of the path,
/// without empty ones: where the field stands in the emitted tree.
pub open spec fn effective_path(f: FieldModel) -> Seq<Seq<char>> {
    let p = match f.relative_path {
        Some(r) => r,
        None => f.path,
    };
    kept_segments(split_on(p, '.'), Seq::empty())
}

/// The name of the emitted-tree parent: the second-to-last effective
/// segment, or the root's name when there is none.
pub open spec fn parent_name(f: FieldModel) -> Seq<char> {
    let e = effective_path(f);
    if e.len() >= 2 {
        e[e.len() - 2]
    } else {
        Seq::empty()
    }
}

pub open spec fn first_named(fs: Seq<FieldModel>, name: Seq<char>, i: int) -> bool {
    &&& 0 <= i < fs.len()
    &&& fs[i].name == name
    &&& forall|j: int| 0 <= j < i ==> fs[j].name != name
}

/// The first field called `name`.
pub open spec fn name_index(fs: Seq<FieldModel>, name: Seq<char>) -> Option<int> {
    if exists|i: int| first_named(fs, name, i) {
        Some(choose|i: int| first_named(fs, name, i))
    } else {
        None
    }
}

/// The emitted-tree parent of `f`: the first field bearing the parent name.
pub open spec fn relative_parent(fs: Seq<FieldModel>, f: FieldModel) -> Option<int> {
    name_index(fs, parent_name(f))
}

/// The fields below `n` whose emitted-tree parent is the field at `idx`.
pub open spec fn relative_children_below(fs: Seq<FieldModel>, idx: int, n: int) -> Seq<int>
    decreases n,
{
    if n <= 0 {
        Seq::empty()
    } else {
        let prev = relative_children_below(fs, idx, n - 1);
        if n - 1 != idx && relative_parent(fs, fs[n - 1]) == Some(idx) {
            prev.push(n - 1)
        } else {
            prev
        }
    }
}

/// The fields whose emitted-tree parent is the field at `idx`, in order.
pub open spec fn relative_children(fs: Seq<FieldModel>, idx: int) -> Seq<int> {
    relative_children_below(fs, idx, fs.len() as int)
}

/// The fields below `n` whose document parent is the field at `idx`.
pub open spec fn toml_children_below(fs: Seq<FieldModel>, idx: int, n: int) -> Seq<int>
    decreases n,
{
    if n <= 0 {
        Seq::empty()
    } else {
        let prev = toml_children_below(fs, idx, n - 1);
        if n - 1 != idx && fs[n - 1].parent == Some(idx) {
            prev.push(n - 1)
        } else {
            prev
        }
    }
}

/// The fields whose document parent is the field at `idx`, in order.
pub open spec fn toml_children(fs: Seq<FieldModel>, idx: int) -> Seq<int> {
    toml_children_below(fs, idx, fs.len() as int)
}

/// Two records agree on everything but the node itself.
pub open spec fn same_record(a: FieldModel, b: FieldModel) -> bool {
    &&& a.name == b.name
    &&& a.path == b.path
    &&& a.relative_path == b.relative_path
    &&& a.toml_path == b.toml_path
    &&& a.alias == b.alias
    &&& a.parent == b.parent
    &&& a.comment == b.comment
}

fn same_opt(a: &Option<String>, b: &Option<String>) -> (r: bool)
    ensures
        r == (opt_view(*a) == opt_view(*b)),
{
    match (a, b) {
        (Some(x), Some(y)) => *x == *y,
        (None, None) => true,
        _ => false,
    }
}

impl<'a> TomlField<'a> {
    /// The segments of the field's place in the emitted tree (see
    /// `effective_path`).
    pub fn effective_module_path(&self) -> (r: Vec<String>)
        ensures
            views_of_strings(r@) == effective_path(self.view()),
    {
        let p = match &self.relative_path {
            Some(rel) => rel,
            None => &self.path,
        };
        let none: Vec<Vec<char>> = Vec::new();
        assert(views(none@) =~= Seq::<Seq<char>>::empty());
        let segs = keep_segments(&split_chars(&chars_of(p.as_str()), '.'), &none);
        let mut out: Vec<String> = Vec::new();
        let mut i: usize = 0;
        while i < segs.len()
            invariant
                i <= segs@.len(),
                views_of_strings(out@) == views(segs@).subrange(0, i as int),
            decreases segs.len() - i,
        {
            let ghost before = views_of_strings(out@);
            let s = string_of(&segs[i]);
            out.push(s);
            assert(views_of_strings(out@) =~= before.push(s@));
            i = i + 1;
            assert(views_of_strings(out@) =~= views(segs@).subrange(0, i as int));
        }
        assert(views(segs@).subrange(0, segs@.len() as int) =~= views(segs@));
        out
    }

    fn same_as(&self, other: &TomlField<'a>) -> (r: bool)
        ensures
            r == same_record(self.view(), other.view()),
    {
        self.name == other.name && self.path == other.path && same_opt(
            &self.relative_path,
            &other.relative_path,
        ) && same_opt(&self.toml_path, &other.toml_path) && same_opt(&self.alias, &other.alias)
            && self.parent == other.parent && same_opt(&self.comment, &other.comment)
    }
}

impl<'a> TomlFields<'a> {
    pub fn get_field(&self, idx: usize) -> (r: Option<&TomlField<'a>>)
        ensures
            match r {
                Some(f) => idx < self.fields@.len() && f == self.fields@[idx as int],
                None => idx >= self.fields@.len(),
            },
    {
        if idx < self.fields.len() {
            Some(&self.fields[idx])
        } else {
            None
        }
    }

    fn name_position(&self, name: &String) -> (r: Option<usize>)
        ensures
            match r {
                Some(i) => name_index(self.records(), name@) == Some(i as int) && i < self.fields@.len(),
                None => name_index(self.records(), name@) is None,
            },
    {
        let mut i: usize = 0;
        while i < self.fields.len()
            invariant
                i <= self.fields@.len(),
                forall|j: int| 0 <= j < i ==> self.records()[j].name != name@,
            decreases self.fields.len() - i,
        {
            if self.fields[i].name == *name {
                assert(first_named(self.records(), name@, i as int));
                proof {
                    let k = choose|k: int| first_named(self.records(), name@, k);
                    assert(k == i) by {
                        if k < i {
                            assert(self.records()[k].name != name@);
                        }
                    }
                }
                return Some(i);
            }
            i = i + 1;
        }
        None
    }

    /// The first field called `name`.
    pub fn get_by_name(&self, name: &str) -> (r: Option<&TomlField<'a>>)
        ensures
            match r {
                Some(f) => name_index(self.records(), name@) matches Some(i) && f == self.fields@[i],
                None => name_index(self.records(), name@) is None,
            },
    {
        match self.name_position(&String::from_str(name)) {
            Some(i) => Some(&self.fields[i]),
            None => None,
        }
    }

    /// The first index holding a record that agrees with `field`.
    pub fn index_of(&self, field: &TomlField<'a>) -> (r: Option<usize>)
        ensures
            match r {
                Some(i) => i < self.fields@.len() && same_record(self.records()[i as int], field.view())
                    && forall|j: int| 0 <= j < i ==> !same_record(self.records()[j], field.view()),
                None => forall|j: int| 0 <= j < self.fields@.len() ==> !same_record(self.records()[j], field.view()),
            },
    {
        let mut i: usize = 0;
        while i < self.fields.len()
            invariant
                i <= self.fields@.len(),
                forall|j: int| 0 <= j < i ==> !same_record(self.records()[j], field.view()),
            decreases self.fields.len() - i,
        {
            if self.fields[i].same_as(field) {
                return Some(i);
            }
            i = i + 1;
        }
        None
    }

    /// The index of the emitted-tree parent of `this_field` (see
    /// `relative_parent`).
    pub fn relative_parent_index(&self, this_field: &TomlField<'a>) -> (r: Option<usize>)
        ensures
            match r {
                Some(i) => relative_parent(self.records(), this_field.view()) == Some(i as int) && i < self.fields@.len(),
                None => relative_parent(self.records(), this_field.view()) is None,
            },
    {
        let e = this_field.effective_module_path();
        let parent = if e.len() >= 2 {
            e[e.len() - 2].clone()
        } else {
            String::new()
        };
        self.name_position(&parent)
    }

    /// The emitted-tree parent of `this_field`, where a field bears its name.
    pub fn get_relative_parent_of_field(&self, this_field: &TomlField<'a>) -> (r: Option<&TomlField<'a>>)
        ensures
            match r {
                Some(f) => relative_parent(self.records(), this_field.view()) matches Some(i) && f == self.fields@[i],
                None => relative_parent(self.records(), this_field.view()) is None,
            },
    {
        match self.relative_parent_index(this_field) {
            Some(i) => Some(&self.fields[i]),
            None => None,
        }
    }

    /// The emitted-tree parent of the field at `this_idx`.
    pub fn get_relative_parent_of(&self, this_idx: usize) -> (r: Option<&TomlField<'a>>)
        ensures
            this_idx >= self.fields@.len() ==> r is None,
            this_idx < self.fields@.len() ==> match r {
                Some(f) => relative_parent(self.records(), self.records()[this_idx as int]) matches Some(i) && f == self.fields@[i],
                None => relative_parent(self.records(), self.records()[this_idx as int]) is None,
            },
    {
        match self.get_field(this_idx) {
            Some(f) => self.get_relative_parent_of_field(f),
            None => None,
        }
    }

    /// The indices of the fields whose emitted-tree parent is the field at
    /// `this_idx`, in order.
    pub fn get_relative_children_of(&self, this_idx: usize) -> (r: Vec<usize>)
        ensures
            r@.len() == relative_children(self.records(), this_idx as int).len(),
            forall|k: int| 0 <= k < r@.len() ==> r@[k] as int == #[trigger] relative_children(self.records(), this_idx as int)[k],
    {
        let ghost fs = self.records();
        let mut out: Vec<usize> = Vec::new();
        let mut j: usize = 0;
        while j < self.fields.len()
            invariant
                j <= self.fields@.len(),
                fs == self.records(),
                out@.len() == relative_children_below(fs, this_idx as int, j as int).len(),
                forall|k: int| 0 <= k < out@.len() ==> out@[k] as int == #[trigger] relative_children_below(fs, this_idx as int, j as int)[k],
            decreases self.fields.len() - j,
        {
            let p = self.relative_parent_index(&self.fields[j]);
            let is_child = j != this_idx && match p {
                Some(i) => i == this_idx,
                None => false,
            };
            if is_child {
                out.push(j);
            }
            j = j + 1;
        }
        out
    }

    /// The indices of the fields whose document parent is the field at
    /// `this_idx`, in order.
    pub fn get_toml_children_of(&self, this_idx: usize) -> (r: Vec<usize>)
        ensures
            r@.len() == toml_children(self.records(), this_idx as int).len(),
            forall|k: int| 0 <= k < r@.len() ==> r@[k] as int == #[trigger] toml_children(self.records(), this_idx as int)[k],
    {
        let ghost fs = self.records();
        let mut out: Vec<usize> = Vec::new();
        let mut j: usize = 0;
        while j < self.fields.len()
            invariant
                j <= self.fields@.len(),
                fs == self.records(),
                out@.len() == toml_children_below(fs, this_idx as int, j as int).len(),
                forall|k: int| 0 <= k < out@.len() ==> out@[k] as int == #[trigger] toml_children_below(fs, this_idx as int, j as int)[k],
            decreases self.fields.len() - j,
        {
            let is_child = j != this_idx && self.fields[j].parent == Some(this_idx);
            if is_child {
                out.push(j);
            }
            j = j + 1;
        }
        out
    }
}

pub open spec fn no_comments(fs: Seq<FieldModel>) -> bool {
    forall|i: int| 0 <= i < fs.len() ==> (#[trigger] fs[i]).comment is None
}

proof fn lemma_walk_no_comments(fs: Seq<FieldModel>, v: TomlValue, raw: Seq<char>, doc: Seq<char>, parent: int, sel: Selection)
    requires
        no_comments(fs),
    ensures
        no_comments(walk(fs, v, raw, doc, parent, sel)),
    decreases v, 0nat,
{
    let is_root = parent == 0 && fs.len() == 0;
    let rec = if is_root {
        root_model(v)
    } else {
        node_model(sel, v, raw, doc, parent)
    };
    let idx = if is_root {
        0
    } else {
        fs.len() as int
    };
    match v {
        TomlValue::Table(es, _) => {
            assert(no_comments(fs.push(rec)));
            lemma_entries_no_comments(fs.push(rec), es@, field_path(sel, raw), doc, idx, sel);
        },
        _ => {
            assert(no_comments(fs.push(rec)));
            assert(no_comments(fs.push(FieldModel { path: rec.name, ..rec })));
        },
    }
}

proof fn lemma_entries_no_comments(fs: Seq<FieldModel>, es: Seq<(String, TomlValue)>, path: Seq<char>, doc: Seq<char>, idx: int, sel: Selection)
    requires
        no_comments(fs),
    ensures
        no_comments(walk_entries(fs, es, path, doc, idx, sel)),
    decreases es, 1nat,
{
    if es.len() > 0 {
        lemma_entries_no_comments(fs, es.drop_last(), path, doc, idx, sel);
        lemma_walk_no_comments(
            walk_entries(fs, es.drop_last(), path, doc, idx, sel),
            es.last().1,
            child_path(path, es.last().0@),
            child_path(doc, es.last().0@),
            idx,
            sel,
        );
    }
}

proof fn lemma_aliases_keep(fs: Seq<FieldModel>, aliases: Seq<(Seq<char>, Seq<char>)>)
    ensures
        attach_aliases(fs, aliases).len() == fs.len(),
        forall|i: int| 0 <= i < fs.len() ==> {
            &&& (#[trigger] attach_aliases(fs, aliases)[i]).comment == fs[i].comment
            &&& attach_aliases(fs, aliases)[i].path == fs[i].path
            &&& attach_aliases(fs, aliases)[i].toml_path == fs[i].toml_path
            &&& attach_aliases(fs, aliases)[i].name == fs[i].name
        },
    decreases aliases.len(),
{
    if aliases.len() > 0 {
        lemma_aliases_keep(fs, aliases.drop_last());
    }
}

/// Every field of a build from an empty sequence carries the comment that
/// the lookup under its absolute path, the same with dashes, its document
/// path, or the same with dashes finds, and none where all four miss.
pub proof fn lemma_built_comments(root: TomlValue, sel: Selection, literals: Seq<Seq<char>>, c: Map<Seq<char>, Seq<char>>, i: int)
    requires
        0 <= i < built(Seq::empty(), root, sel, literals, Some(c)).len(),
    ensures
        ({
            let b = built(Seq::empty(), root, sel, literals, Some(c));
            b[i].comment == comment_lookup(c, b[i].path, b[i].toml_path)
        }),
{
    let w = walk(Seq::empty(), root, Seq::empty(), Seq::empty(), 0, sel);
    lemma_walk_no_comments(Seq::empty(), root, Seq::empty(), Seq::empty(), 0, sel);
    let r = with_relative(w, literals);
    assert(no_comments(r));
    lemma_aliases_keep(r, sel.aliases);
    let a = attach_aliases(r, sel.aliases);
    assert(a[i].comment is None);
}

/// A leaf other than the top level is kept exactly when its path passes the
/// selection (an inclusion matches or there is none, and no exclusion
/// matches), or when an alias names it; nothing else changes.
pub proof fn lemma_leaf_retention(fs: Seq<FieldModel>, v: TomlValue, raw: Seq<char>, doc: Seq<char>, parent: int, sel: Selection)
    requires
        !(v is Table),
        !(parent == 0 && fs.len() == 0),
    ensures
        ({
            let w = walk(fs, v, raw, doc, parent, sel);
            &&& w.len() == fs.len() + 1 <==> (leaf_kept(sel, field_path(sel, raw)) || alias_index(sel.aliases, raw) is Some)
            &&& w.len() == fs.len() + 1 || w == fs
            &&& w.subrange(0, fs.len() as int) == fs
        }),
{
    let w = walk(fs, v, raw, doc, parent, sel);
    if w.len() == fs.len() + 1 {
        assert(w.subrange(0, fs.len() as int) =~= fs);
    } else {
        assert(w.subrange(0, fs.len() as int) =~= fs);
    }
}

/// The emitted-tree parent of a field is one field of the sequence: it bears
/// the parent name and no earlier field does; where that name is the root's
/// and the sequence starts with the top level, it is the top level.
pub proof fn lemma_relative_parent_unique(fs: Seq<FieldModel>, f: FieldModel)
    ensures
        relative_parent(fs, f) matches Some(p) ==> {
            &&& 0 <= p < fs.len()
            &&& fs[p].name == parent_name(f)
            &&& forall|q: int| 0 <= q < fs.len() && fs[q].name == parent_name(f) ==> p <= q
        },
        relative_parent(fs, f) is None ==> forall|q: int| 0 <= q < fs.len() ==> fs[q].name != parent_name(f),
        (fs.len() > 0 && fs[0].name.len() == 0 && parent_name(f).len() == 0) ==> relative_parent(fs, f) == Some(0int),
{
    let n = parent_name(f);
    if relative_parent(fs, f) is None {
        assert forall|q: int| 0 <= q < fs.len() implies fs[q].name != n by {
            if fs[q].name == n {
                let m = choose_first(fs, n, q);
            }
        }
    }
    if fs.len() > 0 && fs[0].name.len() == 0 && n.len() == 0 {
        assert(fs[0].name =~= n);
        assert(first_named(fs, n, 0));
        let k = choose|k: int| first_named(fs, n, k);
        assert(k == 0) by {
            if k > 0 {
                assert(fs[0].name != n);
            }
        }
    }
}

/// Some field is the first one bearing `name` when any field bears it.
proof fn choose_first(fs: Seq<FieldModel>, name: Seq<char>, q: int) -> (m: int)
    requires
        0 <= q < fs.len(),
        fs[q].name == name,
    ensures
        first_named(fs, name, m),
    decreases q,
{
    if exists|j: int| 0 <= j < q && fs[j].name == name {
        let j = choose|j: int| 0 <= j < q && fs[j].name == name;
        choose_first(fs, name, j)
    } else {
        q
    }
}

pub proof fn lemma_children_in_range(fs: Seq<FieldModel>, idx: int, n: int)
    ensures
        forall|k: int|
            0 <= k < relative_children_below(fs, idx, n).len() ==> 0 <= #[trigger] relative_children_below(fs, idx, n)[k] < n,
    decreases n,
{
    if n > 0 {
        lemma_children_in_range(fs, idx, n - 1);
        let prev = relative_children_below(fs, idx, n - 1);
        assert forall|k: int| 0 <= k < relative_children_below(fs, idx, n).len() implies 0
            <= #[trigger] relative_children_below(fs, idx, n)[k] < n by {
            if k < prev.len() {
                assert(relative_children_below(fs, idx, n)[k] == prev[k]);
            }
        }
    }
}

/// Every record's document parent comes before it.
pub open spec fn parents_precede(fs: Seq<FieldModel>) -> bool {
    forall|i: int| 0 <= i < fs.len() ==> ((#[trigger] fs[i]).parent matches Some(p) ==> 0 <= p < i)
}

proof fn lemma_walk_parents(fs: Seq<FieldModel>, v: TomlValue, raw: Seq<char>, doc: Seq<char>, parent: int, sel: Selection)
    requires
        parents_precede(fs),
        (parent == 0 && fs.len() == 0) || 0 <= parent < fs.len(),
    ensures
        parents_precede(walk(fs, v, raw, doc, parent, sel)),
        walk(fs, v, raw, doc, parent, sel).len() >= fs.len(),
    decreases v, 0nat,
{
    let is_root = parent == 0 && fs.len() == 0;
    let rec = if is_root {
        root_model(v)
    } else {
        node_model(sel, v, raw, doc, parent)
    };
    let idx = if is_root {
        0
    } else {
        fs.len() as int
    };
    assert(parents_precede(fs.push(rec)));
    match v {
        TomlValue::Table(es, _) => {
            lemma_entries_parents(fs.push(rec), es@, field_path(sel, raw), doc, idx, sel);
        },
        _ => {
            assert(parents_precede(fs.push(FieldModel { path: rec.name, ..rec })));
        },
    }
}

proof fn lemma_entries_parents(fs: Seq<FieldModel>, es: Seq<(String, TomlValue)>, path: Seq<char>, doc: Seq<char>, idx: int, sel: Selection)
    requires
        parents_precede(fs),
        0 <= idx < fs.len(),
    ensures
        parents_precede(walk_entries(fs, es, path, doc, idx, sel)),
        walk_entries(fs, es, path, doc, idx, sel).len() >= fs.len(),
    decreases es, 1nat,
{
    if es.len() > 0 {
        lemma_entries_parents(fs, es.drop_last(), path, doc, idx, sel);
        lemma_walk_parents(
            walk_entries(fs, es.drop_last(), path, doc, idx, sel),
            es.last().1,
            child_path(path, es.last().0@),
            child_path(doc, es.last().0@),
            idx,
            sel,
        );
    }
}

proof fn lemma_aliases_keep_parents(fs: Seq<FieldModel>, aliases: Seq<(Seq<char>, Seq<char>)>)
    ensures
        forall|i: int| 0 <= i < fs.len() ==> (#[trigger] attach_aliases(fs, aliases)[i]).parent == fs[i].parent,
    decreases aliases.len(),
{
    if aliases.len() > 0 {
        lemma_aliases_keep_parents(fs, aliases.drop_last());
        lemma_aliases_keep(fs, aliases.drop_last());
    }
}

/// In a build from an empty sequence, the first record is the top level and
/// every record's document parent comes before it.
pub proof fn lemma_built_parents(root: TomlValue, sel: Selection, literals: Seq<Seq<char>>, c: Option<Map<Seq<char>, Seq<char>>>)
    ensures
        ({
            let b = built(Seq::empty(), root, sel, literals, c);
            &&& b.len() > 0
            &&& b[0].parent is None
            &&& b[0].name.len() == 0
            &&& parents_precede(b)
        }),
{
    let w = walk(Seq::empty(), root, Seq::empty(), Seq::empty(), 0, sel);
    lemma_walk_parents(Seq::empty(), root, Seq::empty(), Seq::empty(), 0, sel);
    lemma_walk_root(root, sel);
    let r = with_relative(w, literals);
    lemma_aliases_keep_parents(r, sel.aliases);
    lemma_aliases_keep(r, sel.aliases);
    let a = attach_aliases(r, sel.aliases);
    let b = with_comments(a, c);
    assert forall|i: int| 0 <= i < b.len() implies ((#[trigger] b[i]).parent matches Some(p) ==> 0 <= p < i) by {
        assert(b[i].parent == w[i].parent);
    }
    assert(b[0].name == w[0].name);
}

proof fn lemma_walk_root(root: TomlValue, sel: Selection)
    ensures
        ({
            let w = walk(Seq::empty(), root, Seq::empty(), Seq::empty(), 0, sel);
            w.len() > 0 && w[0] == root_model(root)
        }),
{
    let fs = Seq::<FieldModel>::empty();
    let rec = root_model(root);
    let w = walk(fs, root, Seq::empty(), Seq::empty(), 0, sel);
    match root {
        TomlValue::Table(es, _) => {
            lemma_entries_prefix(fs.push(rec), es@, field_path(sel, Seq::empty()), Seq::empty(), 0, sel);
            assert(w.subrange(0, 1) == fs.push(rec));
            assert(w.subrange(0, 1)[0] == w[0]);
        },
        _ => {
            assert(ident_of(Seq::empty()) =~= Seq::<char>::empty());
            if alias_index(sel.aliases, Seq::empty()) is None {
                assert(leaf_kept(sel, field_path(sel, Seq::empty())));
            }
            assert(w =~= fs.push(rec) || w =~= fs.push(FieldModel { path: rec.name, ..rec }));
            assert(FieldModel { path: rec.name, ..rec } == rec);
        },
    }
}

proof fn lemma_walk_prefix(fs: Seq<FieldModel>, v: TomlValue, raw: Seq<char>, doc: Seq<char>, parent: int, sel: Selection)
    ensures
        walk(fs, v, raw, doc, parent, sel).len() >= fs.len(),
        walk(fs, v, raw, doc, parent, sel).subrange(0, fs.len() as int) == fs,
    decreases v, 0nat,
{
    let is_root = parent == 0 && fs.len() == 0;
    let rec = if is_root {
        root_model(v)
    } else {
        node_model(sel, v, raw, doc, parent)
    };
    let idx = if is_root {
        0
    } else {
        fs.len() as int
    };
    match v {
        TomlValue::Table(es, _) => {
            lemma_entries_prefix(fs.push(rec), es@, field_path(sel, raw), doc, idx, sel);
            let w = walk(fs, v, raw, doc, parent, sel);
            assert(w.subrange(0, fs.len() as int) =~= w.subrange(0, fs.len() as int + 1).subrange(0, fs.len() as int));
            assert(fs.push(rec).subrange(0, fs.len() as int) =~= fs);
        },
        _ => {
            assert(fs.push(rec).subrange(0, fs.len() as int) =~= fs);
            assert(fs.push(FieldModel { path: rec.name, ..rec }).subrange(0, fs.len() as int) =~= fs);
            assert(fs.subrange(0, fs.len() as int) =~= fs);
        },
    }
}

proof fn lemma_entries_prefix(fs: Seq<FieldModel>, es: Seq<(String, TomlValue)>, path: Seq<char>, doc: Seq<char>, idx: int, sel: Selection)
    ensures
        walk_entries(fs, es, path, doc, idx, sel).len() >= fs.len(),
        walk_entries(fs, es, path, doc, idx, sel).subrange(0, fs.len() as int) == fs,
    decreases es, 1nat,
{
    if es.len() > 0 {
        let prev = walk_entries(fs, es.drop_last(), path, doc, idx, sel);
        lemma_entries_prefix(fs, es.drop_last(), path, doc, idx, sel);
        lemma_walk_prefix(prev, es.last().1, child_path(path, es.last().0@), child_path(doc, es.last().0@), idx, sel);
        let w = walk_entries(fs, es, path, doc, idx, sel);
        assert(w.subrange(0, fs.len() as int) =~= w.subrange(0, prev.len() as int).subrange(0, fs.len() as int));
    } else {
        assert(fs.subrange(0, fs.len() as int) =~= fs);
    }
}

} // verus!
