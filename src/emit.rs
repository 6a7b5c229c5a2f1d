//! The emitted tree: a namespace per table that holds something, a constant
//! per kept leaf, placed by the effective-tree parent.
use vstd::prelude::*;
use crate::field::{
    last_segment, relative_children, relative_parent, FieldModel, TomlField, TomlFields,
};
use crate::ident::{ident_of, to_valid_ident};
use crate::value::{convert_value_to_tokens, literal_of, type_of, Literal, LiteralModel, TypeDesc};

verus! {

/// What `str::to_uppercase` makes of a string.
pub uninterp spec fn upper_of(s: Seq<char>) -> Seq<char>;

/// What `str::to_lowercase` makes of a string.
pub uninterp spec fn lower_of(s: Seq<char>) -> Seq<char>;

/// Relies on `str::to_uppercase`, whose result depends on the characters alone.
#[verifier::external_body]
fn uppercase(s: &str) -> (r: String)
    ensures
        r@ == upper_of(s@),
{
    s.to_uppercase()
}

/// Relies on `str::to_lowercase`, whose result depends on the characters alone.
#[verifier::external_body]
fn lowercase(s: &str) -> (r: String)
    ensures
        r@ == lower_of(s@),
{
    s.to_lowercase()
}

/// One emitted item.
#[derive(Debug)]
pub enum Item {
    /// `pub const NAME: ty = value;`, documented by `doc`.
    Const { name: String, ty: TypeDesc, value: Literal, doc: Option<String> },
    /// `pub mod name { items }`, documented by `doc`.
    Module { name: String, doc: Option<String>, items: Vec<Item> },
}

pub ghost enum ItemModel {
    Const { name: Seq<char>, ty: TypeDesc, value: LiteralModel, doc: Option<Seq<char>> },
    Module { name: Seq<char>, doc: Option<Seq<char>>, items: Seq<ItemModel> },
}

pub open spec fn doc_view(o: Option<String>) -> Option<Seq<char>> {
    match o {
        Some(s) => Some(s@),
        None => None,
    }
}

impl Item {
    pub open spec fn view(&self) -> ItemModel
        decreases self,
    {
        match self {
            Item::Const { name, ty, value, doc } => ItemModel::Const {
                name: name@,
                ty: *ty,
                value: value.view(),
                doc: doc_view(*doc),
            },
            Item::Module { name, doc, items } => ItemModel::Module {
                name: name@,
                doc: doc_view(*doc),
                items: Seq::new(
                    items@.len(),
                    |i: int|
                        if 0 <= i < items@.len() {
                            items@[i].view()
                        } else {
                            ItemModel::Module { name: Seq::empty(), doc: None, items: Seq::empty() }
                        },
                ),
            },
        }
    }
}

pub open spec fn item_views(items: Seq<Item>) -> Seq<ItemModel> {
    Seq::new(items.len(), |i: int| items[i].view())
}

/// The documentation of a field: its comment, when it has a non-empty one.
pub open spec fn doc_of(comment: Option<Seq<char>>) -> Option<Seq<char>> {
    match comment {
        Some(c) => if c.len() > 0 {
            Some(c)
        } else {
            None
        },
        None => None,
    }
}

/// The constant that a leaf field becomes.
pub open spec fn const_item(f: FieldModel) -> ItemModel {
    ItemModel::Const {
        name: upper_of(ident_of(f.name)),
        ty: type_of(f.value),
        value: literal_of(f.value),
        doc: doc_of(f.comment),
    }
}

/// The constants of the leaves among `kids`, in order.
pub open spec fn consts_of(fs: Seq<FieldModel>, kids: Seq<int>) -> Seq<ItemModel>
    decreases kids.len(),
{
    if kids.len() == 0 {
        Seq::empty()
    } else {
        let prev = consts_of(fs, kids.drop_last());
        if fs[kids.last()].value is Table {
            prev
        } else {
            prev.push(const_item(fs[kids.last()]))
        }
    }
}

/// What the field at `idx` emits, descending at most `depth` levels: its
/// leaf children's constants then its table children's output, wrapped in a
/// namespace named after the field unless it is the root; nothing at all
/// when that body is empty. `None` when `depth` runs out.
pub open spec fn module_items(fs: Seq<FieldModel>, idx: int, depth: nat) -> Option<Seq<ItemModel>>
    decreases depth, 0nat,
{
    if depth == 0 {
        None
    } else {
        let kids = relative_children(fs, idx);
        match subs_of(fs, kids, (depth - 1) as nat) {
            None => None,
            Some(subs) => {
                let body = consts_of(fs, kids) + subs;
                let name = last_segment(fs[idx].path);
                if body.len() == 0 {
                    Some(Seq::empty())
                } else if name.len() == 0 {
                    Some(body)
                } else {
                    Some(
                        seq![
                            ItemModel::Module {
                                name: lower_of(ident_of(name)),
                                doc: doc_of(fs[idx].comment),
                                items: body,
                            },
                        ],
                    )
                }
            },
        }
    }
}

/// The output of the tables among `kids`, in order.
pub open spec fn subs_of(fs: Seq<FieldModel>, kids: Seq<int>, depth: nat) -> Option<Seq<ItemModel>>
    decreases depth, kids.len(),
{
    if kids.len() == 0 {
        Some(Seq::empty())
    } else {
        match subs_of(fs, kids.drop_last(), depth) {
            None => None,
            Some(prev) => {
                if fs[kids.last()].value is Table {
                    match module_items(fs, kids.last(), depth) {
                        Some(m) => Some(prev + m),
                        None => None,
                    }
                } else {
                    Some(prev)
                }
            },
        }
    }
}

/// No namespace in `items`, at any depth, is empty.
pub open spec fn no_empty_module(items: Seq<ItemModel>) -> bool
    decreases items,
{
    forall|i: int|
        0 <= i < items.len() ==> match #[trigger] items[i] {
            ItemModel::Module { items: body, .. } => body.len() > 0 && no_empty_module(body),
            _ => true,
        }
}

/// Every field has an emitted-tree parent.
pub open spec fn all_parented(fs: Seq<FieldModel>) -> bool {
    forall|j: int| 0 <= j < fs.len() ==> relative_parent(fs, #[trigger] fs[j]) is Some
}

/// Why the tree could not be emitted.
#[derive(Debug, PartialEq, Eq)]
pub enum EmitError {
    /// There is no field at all, not even the top level.
    NoRoot,
    /// No field bears the emitted-tree parent name of the field named here.
    MissingParent(String),
    /// The parent relation loops.
    Cycle,
}

/// The documentation of a field (see `doc_of`).
pub fn get_doc_comment(field: &TomlField) -> (r: Option<String>)
    ensures
        doc_view(r) == doc_of(field.view().comment),
{
    match &field.comment {
        Some(c) => if c.as_str().is_empty() {
            None
        } else {
            Some(c.clone())
        },
        None => None,
    }
}

fn const_of(field: &TomlField) -> (r: Item)
    requires
        !(*field.value is Table),
    ensures
        r.view() == const_item(field.view()),
{
    let (ty, value) = convert_value_to_tokens(field.value);
    let name = uppercase(to_valid_ident(field.name.as_str()).as_str());
    Item::Const { name, ty, value, doc: get_doc_comment(field) }
}

impl<'a> TomlFields<'a> {
    /// What the field at `idx` emits (see `module_items`).
    fn generate_module(&self, idx: usize, depth: usize) -> (r: Option<Vec<Item>>)
        requires
            idx < self.fields@.len(),
        ensures
            match r {
                Some(items) => module_items(self.records(), idx as int, depth as nat) == Some(item_views(items@)),
                None => module_items(self.records(), idx as int, depth as nat) is None,
            },
        decreases depth,
    {
        let ghost fs = self.records();
        if depth == 0 {
            return None;
        }
        let kids = self.get_relative_children_of(idx);
        let ghost ks = relative_children(fs, idx as int);
        assert(kids@.len() == ks.len());
        proof {
            crate::field::lemma_children_in_range(fs, idx as int, fs.len() as int);
        }
        let mut body: Vec<Item> = Vec::new();
        let mut i: usize = 0;
        while i < kids.len()
            invariant
                fs == self.records(),
                i <= kids@.len() == ks.len(),
                ks == relative_children(fs, idx as int),
                forall|k: int| 0 <= k < kids@.len() ==> kids@[k] as int == #[trigger] ks[k],
                forall|k: int| 0 <= k < ks.len() ==> 0 <= #[trigger] ks[k] < fs.len(),
                item_views(body@) == consts_of(fs, ks.subrange(0, i as int)),
            decreases kids.len() - i,
        {
            assert(ks.subrange(0, i + 1).drop_last() =~= ks.subrange(0, i as int));
            assert(ks[i as int] == kids@[i as int] as int);
            let f = &self.fields[kids[i]];
            if !f.is_table() {
                let ghost before = item_views(body@);
                let c = const_of(f);
                body.push(c);
                assert(item_views(body@) =~= before.push(c.view()));
            }
            i = i + 1;
        }
        assert(ks.subrange(0, ks.len() as int) =~= ks);
        let ghost consts = item_views(body@);
        let mut i: usize = 0;
        while i < kids.len()
            invariant
                fs == self.records(),
                depth > 0,
                i <= kids@.len() == ks.len(),
                ks == relative_children(fs, idx as int),
                forall|k: int| 0 <= k < kids@.len() ==> kids@[k] as int == #[trigger] ks[k],
                forall|k: int| 0 <= k < ks.len() ==> 0 <= #[trigger] ks[k] < fs.len(),
                subs_of(fs, ks.subrange(0, i as int), (depth - 1) as nat) matches Some(s) && item_views(body@) == consts + s,
            decreases kids.len() - i,
        {
            assert(ks.subrange(0, i + 1).drop_last() =~= ks.subrange(0, i as int));
            assert(ks[i as int] == kids@[i as int] as int);
            if self.fields[kids[i]].is_table() {
                match self.generate_module(kids[i], depth - 1) {
                    Some(m) => {
                        let ghost before = item_views(body@);
                        let mut m = m;
                        let ghost mv = item_views(m@);
                        body.append(&mut m);
                        assert(item_views(body@) =~= before + mv);
                    },
                    None => {
                        proof {
                            let pre = ks.subrange(0, i + 1);
                            assert(pre.drop_last() =~= ks.subrange(0, i as int));
                            assert(pre.last() == ks[i as int]);
                            assert(fs[pre.last()].value is Table);
                            assert(subs_of(fs, pre, (depth - 1) as nat) is None);
                            lemma_subs_none_extends(fs, ks, (depth - 1) as nat, i + 1);
                            assert(ks == relative_children(fs, idx as int));
                            assert(((depth as nat) - 1) as nat == (depth - 1) as nat);
                            assert(subs_of(fs, relative_children(fs, idx as int), ((depth as nat) - 1) as nat) is None);
                            assert(module_items(fs, idx as int, depth as nat) is None);
                        }
                        return None;
                    },
                }
            }
            i = i + 1;
        }
        assert(ks.subrange(0, ks.len() as int) =~= ks);
        if body.len() == 0 {
            assert(item_views(body@) =~= Seq::<ItemModel>::empty());
            let out: Vec<Item> = Vec::new();
            assert(item_views(out@) =~= Seq::<ItemModel>::empty());
            return Some(out);
        }
        let module_name = crate::field::last_segment_of(&self.fields[idx].path);
        if module_name.as_str().is_empty() {
            return Some(body);
        }
        let name = lowercase(to_valid_ident(module_name.as_str()).as_str());
        let doc = get_doc_comment(&self.fields[idx]);
        let ghost bv = item_views(body@);
        let m = Item::Module { name, doc, items: body };
        assert(m.view() == (ItemModel::Module { name: name@, doc: doc_view(doc), items: bv })) by {
            if let ItemModel::Module { items: s, .. } = m.view() {
                assert(s =~= bv);
            }
        }
        let out = vec![m];
        assert(item_views(out@) =~= seq![m.view()]);
        Some(out)
    }

    /// The whole emitted tree: the root's output, once every field has an
    /// emitted-tree parent.
    pub fn generate_modules(&self) -> (r: Result<Vec<Item>, EmitError>)
        ensures
            r is Ok <==> (self.fields@.len() > 0 && all_parented(self.records()) && module_items(
                self.records(),
                0,
                self.fields@.len() as nat,
            ) is Some),
            self.fields@.len() == 0 ==> r == Err::<Vec<Item>, EmitError>(EmitError::NoRoot),
            r matches Ok(items) ==> self.fields@.len() > 0 && module_items(
                self.records(),
                0,
                self.fields@.len() as nat,
            ) == Some(item_views(items@)),
            r matches Err(EmitError::MissingParent(n)) ==> exists|j: int|
                0 <= j < self.fields@.len() && relative_parent(self.records(), #[trigger] self.records()[j]) is None
                    && self.records()[j].name == n@,
            r matches Err(EmitError::Cycle) ==> module_items(self.records(), 0, self.fields@.len() as nat) is None,
    {
        let n = self.fields.len();
        if n == 0 {
            return Err(EmitError::NoRoot);
        }
        let mut j: usize = 0;
        while j < n
            invariant
                n == self.fields@.len(),
                j <= n,
                forall|k: int| 0 <= k < j ==> relative_parent(self.records(), #[trigger] self.records()[k]) is Some,
            decreases n - j,
        {
            assert(self.records()[j as int] == self.fields@[j as int].view());
            if self.relative_parent_index(&self.fields[j]).is_none() {
                return Err(EmitError::MissingParent(self.fields[j].name.clone()));
            }
            j = j + 1;
        }
        match self.generate_module(0, n) {
            Some(items) => Ok(items),
            None => Err(EmitError::Cycle),
        }
    }
}

proof fn lemma_subs_none_extends(fs: Seq<FieldModel>, kids: Seq<int>, depth: nat, i: int)
    requires
        0 <= i <= kids.len(),
        subs_of(fs, kids.subrange(0, i), depth) is None,
    ensures
        subs_of(fs, kids, depth) is None,
    decreases kids.len() - i,
{
    if i < kids.len() {
        assert(kids.subrange(0, i + 1).drop_last() =~= kids.subrange(0, i));
        lemma_subs_none_extends(fs, kids, depth, i + 1);
    } else {
        assert(kids.subrange(0, i) =~= kids);
    }
}

proof fn lemma_no_empty_concat(a: Seq<ItemModel>, b: Seq<ItemModel>)
    requires
        no_empty_module(a),
        no_empty_module(b),
    ensures
        no_empty_module(a + b),
{
    assert forall|i: int| 0 <= i < (a + b).len() implies match #[trigger] (a + b)[i] {
        ItemModel::Module { items: body, .. } => body.len() > 0 && no_empty_module(body),
        _ => true,
    } by {
        if i < a.len() {
            assert((a + b)[i] == a[i]);
        } else {
            assert((a + b)[i] == b[i - a.len()]);
        }
    }
}

proof fn lemma_consts_no_module(fs: Seq<FieldModel>, kids: Seq<int>)
    ensures
        no_empty_module(consts_of(fs, kids)),
    decreases kids.len(),
{
    if kids.len() > 0 {
        lemma_consts_no_module(fs, kids.drop_last());
        let prev = consts_of(fs, kids.drop_last());
        if !(fs[kids.last()].value is Table) {
            let c = const_item(fs[kids.last()]);
            assert(no_empty_module(seq![c]));
            lemma_no_empty_concat(prev, seq![c]);
            assert(prev.push(c) =~= prev + seq![c]);
        }
    }
}

/// Every namespace that the emitter produces, at any depth, has a non-empty
/// body.
pub proof fn lemma_no_empty_module(fs: Seq<FieldModel>, idx: int, depth: nat)
    ensures
        module_items(fs, idx, depth) matches Some(items) ==> no_empty_module(items),
    decreases depth, 0nat,
{
    if depth > 0 {
        let kids = relative_children(fs, idx);
        lemma_subs_no_empty(fs, kids, (depth - 1) as nat);
        lemma_consts_no_module(fs, kids);
        if let Some(subs) = subs_of(fs, kids, (depth - 1) as nat) {
            let body = consts_of(fs, kids) + subs;
            lemma_no_empty_concat(consts_of(fs, kids), subs);
            let name = last_segment(fs[idx].path);
            if body.len() > 0 && name.len() > 0 {
                let m = ItemModel::Module {
                    name: lower_of(ident_of(name)),
                    doc: doc_of(fs[idx].comment),
                    items: body,
                };
                assert(no_empty_module(seq![m]));
            }
        }
    }
}

proof fn lemma_subs_no_empty(fs: Seq<FieldModel>, kids: Seq<int>, depth: nat)
    ensures
        subs_of(fs, kids, depth) matches Some(s) ==> no_empty_module(s),
    decreases depth, kids.len(),
{
    if kids.len() > 0 {
        lemma_subs_no_empty(fs, kids.drop_last(), depth);
        if fs[kids.last()].value is Table {
            lemma_no_empty_module(fs, kids.last(), depth);
            if let Some(prev) = subs_of(fs, kids.drop_last(), depth) {
                if let Some(m) = module_items(fs, kids.last(), depth) {
                    lemma_no_empty_concat(prev, m);
                }
            }
        }
    }
}

} // verus!
