//! The whole selection input, and generation from it.
use vstd::prelude::*;
use crate::comments::{extract_comments, CommentMap};
use crate::emit::{all_parented, item_views, module_items, Item, ItemModel};
use crate::field::built;
use crate::module::{
    block_at, block_selection, globs_compile, literal_strings, BlockModel, GenerationError,
    RootModule, RootModuleSource,
};
use crate::token::{literal_string, string_literal_value, SyntaxError, Token};
use crate::value::{decoded_document, parse_document, TomlValue};
use crate::comments::comments_of;

verus! {

/// The document path that a leading string literal gives, if any.
pub open spec fn source_path(toks: Seq<Token>) -> Option<Seq<char>> {
    if toks.len() > 0 && toks[0] is Literal {
        string_literal_value(toks[0]->Literal_0@)
    } else {
        None
    }
}

/// The blocks from `pos` to the end, after `acc`.
pub open spec fn blocks_from(toks: Seq<Token>, pos: int, acc: Seq<BlockModel>) -> Result<Seq<BlockModel>, SyntaxError>
    decreases toks.len() - pos,
{
    if pos >= toks.len() {
        Ok(acc)
    } else {
        match block_at(toks, pos) {
            Err(e) => Err(e),
            Ok((b, next)) => if pos < next <= toks.len() {
                blocks_from(toks, next, acc.push(b))
            } else {
                Ok(acc.push(b))
            },
        }
    }
}

/// The blocks of a whole input, after its optional leading path literal.
pub open spec fn input_blocks(toks: Seq<Token>) -> Result<Seq<BlockModel>, SyntaxError> {
    blocks_from(toks, if source_path(toks) is Some { 1 } else { 0 }, Seq::empty())
}

pub open spec fn source_views(v: Seq<RootModuleSource>) -> Seq<BlockModel> {
    Seq::new(v.len(), |i: int| v[i].view())
}

/// A parsed selection: the document path, if the input gives one, and the
/// blocks in order.
pub struct MacroInput {
    pub toml_path: Option<String>,
    pub root_module_sources: Vec<RootModuleSource>,
}

impl MacroInput {
    /// Parses a whole selection input (see `input_blocks`).
    pub fn parse(toks: &Vec<Token>) -> (r: Result<MacroInput, SyntaxError>)
        ensures
            match r {
                Ok(m) => input_blocks(toks@) == Ok::<Seq<BlockModel>, SyntaxError>(source_views(m.root_module_sources@))
                    && match m.toml_path {
                        Some(p) => source_path(toks@) == Some(p@),
                        None => source_path(toks@) is None,
                    },
                Err(e) => input_blocks(toks@) == Err::<Seq<BlockModel>, SyntaxError>(e),
            },
    {
        let n = toks.len();
        let toml_path = if n > 0 {
            match &toks[0] {
                Token::Literal(text) => literal_string(text.as_str()),
                _ => None,
            }
        } else {
            None
        };
        let mut at: usize = if toml_path.is_some() {
            1
        } else {
            0
        };
        let mut sources: Vec<RootModuleSource> = Vec::new();
        assert(source_views(sources@) =~= Seq::<BlockModel>::empty());
        while at < n
            invariant
                n == toks@.len(),
                at <= n,
                input_blocks(toks@) == blocks_from(toks@, at as int, source_views(sources@)),
            decreases n - at,
        {
            match RootModuleSource::parse(toks, at) {
                Ok((b, next)) => {
                    let ghost before = source_views(sources@);
                    let ghost bv = b.view();
                    sources.push(b);
                    assert(source_views(sources@) =~= before.push(bv));
                    at = next;
                },
                Err(e) => {
                    return Err(e);
                },
            }
        }
        Ok(MacroInput { toml_path, root_module_sources: sources })
    }
}

/// What one block emits: its namespace around the output of the root of its
/// fields, when building and emitting succeed.
pub open spec fn block_output(b: BlockModel, toml: TomlValue, comments: Map<Seq<char>, Seq<char>>) -> Option<ItemModel> {
    let fs = built(Seq::empty(), toml, block_selection(b), literal_strings(b), Some(comments));
    if fs.len() > 0 && globs_compile(b) && all_parented(fs) {
        match module_items(fs, 0, fs.len() as nat) {
            Some(items) => Some(ItemModel::Module { name: b.name, doc: None, items }),
            None => None,
        }
    } else {
        None
    }
}

/// Generates one namespace per block from a decoded document and its
/// comments: each holds what its block selects, reshaped and documented.
pub fn expand(input: &MacroInput, toml: &TomlValue, comments: &CommentMap) -> (r: Result<Vec<Item>, GenerationError>)
    requires
        comments.wf(),
    ensures
        r is Ok <==> forall|k: int|
            0 <= k < input.root_module_sources@.len() ==> (#[trigger] block_output(
                input.root_module_sources@[k].view(),
                *toml,
                comments.view(),
            )) is Some,
        r matches Ok(items) ==> items@.len() == input.root_module_sources@.len() && forall|k: int|
            0 <= k < items@.len() ==> block_output(
                input.root_module_sources@[k].view(),
                *toml,
                comments.view(),
            ) == Some(#[trigger] items@[k].view()),
        r matches Err(e) ==> e is BadGlob || e is Emit,
        r matches Err(GenerationError::BadGlob(_)) ==> exists|k: int|
            0 <= k < input.root_module_sources@.len() && !globs_compile(#[trigger] input.root_module_sources@[k].view()),
{
    let mut out: Vec<Item> = Vec::new();
    let mut k: usize = 0;
    while k < input.root_module_sources.len()
        invariant
            comments.wf(),
            k <= input.root_module_sources@.len(),
            out@.len() == k,
            forall|j: int|
                0 <= j < k ==> block_output(input.root_module_sources@[j].view(), *toml, comments.view())
                    == Some(#[trigger] out@[j].view()),
        decreases input.root_module_sources.len() - k,
    {
        let src = &input.root_module_sources[k];
        let copy = RootModuleSource {
            name: src.name.clone(),
            inclusion_pats: duplicate_patterns(&src.inclusion_pats),
            exclusion_pats: duplicate_patterns(&src.exclusion_pats),
            aliases: crate::module::duplicate_aliases(&src.aliases),
            comments: CommentMap::new(),
        };
        let ghost bv = src.view();
        assert(copy.view() == bv);
        let module = match RootModule::new(copy, toml, comments.duplicate()) {
            Ok(m) => m,
            Err(e) => {
                assert(block_output(input.root_module_sources@[k as int].view(), *toml, comments.view()) is None);
                return Err(e);
            },
        };
        let items = match module.fields.generate_modules() {
            Ok(items) => items,
            Err(e) => {
                assert(block_output(input.root_module_sources@[k as int].view(), *toml, comments.view()) is None);
                return Err(GenerationError::Emit(e));
            },
        };
        let ghost iv = item_views(items@);
        let item = Item::Module { name: src.name.clone(), doc: None, items };
        assert(item.view() == (ItemModel::Module { name: bv.name, doc: None, items: iv })) by {
            if let ItemModel::Module { items: s, .. } = item.view() {
                assert(s =~= iv);
            }
        }
        out.push(item);
        k = k + 1;
    }
    assert forall|k: int| 0 <= k < input.root_module_sources@.len() implies (#[trigger] block_output(
        input.root_module_sources@[k].view(),
        *toml,
        comments.view(),
    )) is Some by {
        assert(block_output(input.root_module_sources@[k].view(), *toml, comments.view()) == Some(out@[k].view()));
    }
    Ok(out)
}

fn duplicate_patterns(v: &Vec<crate::pattern::Pattern>) -> (r: Vec<crate::pattern::Pattern>)
    ensures
        crate::module::pattern_views(r@) == crate::module::pattern_views(v@),
{
    let mut out: Vec<crate::pattern::Pattern> = Vec::new();
    let mut i: usize = 0;
    while i < v.len()
        invariant
            i <= v@.len(),
            crate::module::pattern_views(out@) == crate::module::pattern_views(v@).subrange(0, i as int),
        decreases v.len() - i,
    {
        let ghost before = crate::module::pattern_views(out@);
        let p = v[i].duplicate();
        let ghost pv = p.view();
        out.push(p);
        assert(crate::module::pattern_views(out@) =~= before.push(pv));
        i = i + 1;
        assert(crate::module::pattern_views(out@) =~= crate::module::pattern_views(v@).subrange(0, i as int));
    }
    assert(crate::module::pattern_views(v@).subrange(0, v@.len() as int) =~= crate::module::pattern_views(v@));
    out
}

/// An undocumented namespace called `name`.
pub open spec fn named_module(item: ItemModel, name: Seq<char>) -> bool {
    &&& item is Module
    &&& item->Module_name == name
    &&& item->Module_doc is None
}

/// Generates from the text of a document: decodes it, harvests its
/// comments, then `expand`s.
pub fn expand_document(input: &MacroInput, text: &str) -> (r: Result<Vec<Item>, GenerationError>)
    ensures
        r is Ok <==> (decoded_document(text@) matches Some(d) && forall|k: int|
            0 <= k < input.root_module_sources@.len() ==> (#[trigger] block_output(
                input.root_module_sources@[k].view(),
                d,
                comments_of(text@),
            )) is Some),
        decoded_document(text@) is None <==> r matches Err(GenerationError::Document(_)),
        r matches Ok(items) ==> items@.len() == input.root_module_sources@.len() && forall|k: int|
            0 <= k < items@.len() ==> block_output(
                input.root_module_sources@[k].view(),
                decoded_document(text@)->Some_0,
                comments_of(text@),
            ) == Some(#[trigger] items@[k].view()),
        r matches Ok(items) ==> forall|k: int|
            0 <= k < items@.len() ==> named_module(#[trigger] items@[k].view(), input.root_module_sources@[k].view().name),
{
    let toml = match parse_document(text) {
        Ok(v) => v,
        Err(message) => {
            return Err(GenerationError::Document(message));
        },
    };
    let comments = extract_comments(text);
    let r = expand(input, &toml, &comments);
    proof {
        if let Ok(ref items) = r {
            assert forall|k: int| 0 <= k < items@.len() implies named_module(#[trigger] items@[k].view(), input.root_module_sources@[k].view().name) by {
                assert(block_output(input.root_module_sources@[k].view(), toml, comments.view()) == Some(items@[k].view()));
            }
        }
    }
    r
}

} // verus!
