//! Selection blocks: their grammar, and the fields that one block selects.
use vstd::prelude::*;
use crate::comments::CommentMap;
use crate::field::{
    add_glob, build_glob_set, builder_globs, glob_builder, glob_parses, globs_build, globs_char_len, set_globs,
    views_of_strings, TomlFields, GLOB_SET_CHAR_LIMIT,
};
use crate::pattern::{pattern_at, render, syntax_error, Pattern, SegmentModel};
use crate::text::{chars_of, string_of};
use crate::token::{
    ident_at, ident_token, is_punct, punct_at, Delimiter, SyntaxError, SyntaxErrorKind, Token,
};
use crate::value::TomlValue;

verus! {

/// A block as mathematical values.
pub ghost struct BlockModel {
    pub name: Seq<char>,
    pub inclusions: Seq<Seq<SegmentModel>>,
    pub exclusions: Seq<Seq<SegmentModel>>,
    pub aliases: Seq<(Seq<SegmentModel>, Seq<SegmentModel>)>,
}

pub open spec fn first_key(list: Seq<(Seq<SegmentModel>, Seq<SegmentModel>)>, k: Seq<SegmentModel>, i: int) -> bool {
    &&& 0 <= i < list.len()
    &&& list[i].0 == k
    &&& forall|j: int| 0 <= j < i ==> list[j].0 != k
}

/// An alias list with `k` bound to `v`: an earlier binding of `k` is
/// replaced in place, else the binding is appended.
pub open spec fn alias_insert(list: Seq<(Seq<SegmentModel>, Seq<SegmentModel>)>, k: Seq<SegmentModel>, v: Seq<SegmentModel>) -> Seq<(Seq<SegmentModel>, Seq<SegmentModel>)> {
    if exists|i: int| first_key(list, k, i) {
        list.update(choose|i: int| first_key(list, k, i), (k, v))
    } else {
        list.push((k, v))
    }
}

pub open spec fn bracket_at(toks: Seq<Token>, pos: int) -> bool {
    &&& 0 <= pos < toks.len()
    &&& toks[pos] is Group
    &&& toks[pos]->Group_0 == Delimiter::Bracket
}

pub open spec fn alias_keyword_at(toks: Seq<Token>, pos: int) -> bool {
    &&& 0 <= pos < toks.len()
    &&& toks[pos] is Ident
    &&& toks[pos]->Ident_0@ == seq!['a', 'l', 'i', 'a', 's']
}

/// The statements of a block from `pos` up to the next header or the end:
/// `alias a = b`, `! pattern` and `pattern`.
pub open spec fn block_body(toks: Seq<Token>, pos: int, b: BlockModel) -> Result<(BlockModel, int), SyntaxError>
    decreases toks.len() - pos,
{
    if pos >= toks.len() || bracket_at(toks, pos) {
        Ok((b, pos))
    } else if alias_keyword_at(toks, pos) {
        match pattern_at(toks, pos + 1) {
            Err(e) => Err(e),
            Ok((a, eq_pos)) => if !punct_at(toks, eq_pos, '=') {
                Err(syntax_error(eq_pos, SyntaxErrorKind::ExpectedEquals))
            } else {
                match pattern_at(toks, eq_pos + 1) {
                    Err(e) => Err(e),
                    Ok((o, end_pos)) => {
                        let nb = BlockModel { aliases: alias_insert(b.aliases, a, o), ..b };
                        if pos < end_pos <= toks.len() {
                            block_body(toks, end_pos, nb)
                        } else {
                            Ok((nb, end_pos))
                        }
                    },
                }
            },
        }
    } else if punct_at(toks, pos, '!') {
        match pattern_at(toks, pos + 1) {
            Err(e) => Err(e),
            Ok((p, next)) => {
                let nb = BlockModel { exclusions: b.exclusions.push(p), ..b };
                if pos < next <= toks.len() {
                    block_body(toks, next, nb)
                } else {
                    Ok((nb, next))
                }
            },
        }
    } else {
        match pattern_at(toks, pos) {
            Err(e) => Err(e),
            Ok((p, next)) => {
                let nb = BlockModel { inclusions: b.inclusions.push(p), ..b };
                if pos < next <= toks.len() {
                    block_body(toks, next, nb)
                } else {
                    Ok((nb, next))
                }
            },
        }
    }
}

/// The name in the bracketed header at `pos`.
pub open spec fn header_at(toks: Seq<Token>, pos: int) -> Result<Seq<char>, SyntaxError> {
    if !bracket_at(toks, pos) {
        Err(syntax_error(pos, SyntaxErrorKind::ExpectedHeader))
    } else {
        let inner = toks[pos]->Group_1@;
        match ident_at(inner, 0) {
            None => Err(syntax_error(pos, SyntaxErrorKind::ExpectedHeaderName)),
            Some(n) => if inner.len() > 1 {
                Err(syntax_error(pos, SyntaxErrorKind::UnexpectedToken))
            } else {
                Ok(n)
            },
        }
    }
}

/// The block that starts at `pos`, and where it ends.
pub open spec fn block_at(toks: Seq<Token>, pos: int) -> Result<(BlockModel, int), SyntaxError> {
    match header_at(toks, pos) {
        Err(e) => Err(e),
        Ok(n) => block_body(
            toks,
            pos + 1,
            BlockModel {
                name: n,
                inclusions: Seq::empty(),
                exclusions: Seq::empty(),
                aliases: Seq::empty(),
            },
        ),
    }
}

/// One selection block: a header naming the output namespace, the patterns
/// that select and exclude, and the aliases.
pub struct RootModuleSource {
    pub name: String,
    pub inclusion_pats: Vec<Pattern>,
    pub exclusion_pats: Vec<Pattern>,
    /// Each alias with its source pattern; an alias appears once.
    pub aliases: Vec<(Pattern, Pattern)>,
    /// The document's comments, by dotted path.
    pub comments: CommentMap,
}

pub open spec fn pattern_views(v: Seq<Pattern>) -> Seq<Seq<SegmentModel>> {
    Seq::new(v.len(), |i: int| v[i].view())
}

pub open spec fn alias_views(v: Seq<(Pattern, Pattern)>) -> Seq<(Seq<SegmentModel>, Seq<SegmentModel>)> {
    Seq::new(v.len(), |i: int| (v[i].0.view(), v[i].1.view()))
}

impl RootModuleSource {
    pub open spec fn view(&self) -> BlockModel {
        BlockModel {
            name: self.name@,
            inclusions: pattern_views(self.inclusion_pats@),
            exclusions: pattern_views(self.exclusion_pats@),
            aliases: alias_views(self.aliases@),
        }
    }

    fn insert_alias(&mut self, alias: Pattern, path: Pattern)
        ensures
            final(self).view() == (BlockModel {
                aliases: alias_insert(old(self).view().aliases, alias.view(), path.view()),
                ..old(self).view()
            }),
            final(self).comments == old(self).comments,
    {
        let ghost list = alias_views(self.aliases@);
        let mut i: usize = 0;
        while i < self.aliases.len()
            invariant
                i <= self.aliases@.len(),
                *self == *old(self),
                list == alias_views(self.aliases@),
                forall|j: int| 0 <= j < i ==> list[j].0 != alias.view(),
            decreases self.aliases.len() - i,
        {
            if self.aliases[i].0 == alias {
                assert(first_key(list, alias.view(), i as int));
                proof {
                    let k = choose|k: int| first_key(list, alias.view(), k);
                    assert(k == i) by {
                        if k < i {
                            assert(list[k].0 != alias.view());
                        }
                    }
                }
                let ghost av = alias.view();
                let ghost pv = path.view();
                self.aliases.set(i, (alias, path));
                assert(alias_views(self.aliases@) =~= list.update(i as int, (av, pv)));
                return;
            }
            i = i + 1;
        }
        let ghost av = alias.view();
        let ghost pv = path.view();
        self.aliases.push((alias, path));
        assert(alias_views(self.aliases@) =~= list.push((av, pv)));
    }

    /// Parses the block at `pos` (see `block_at`); its comments start empty.
    pub fn parse(toks: &Vec<Token>, pos: usize) -> (r: Result<(RootModuleSource, usize), SyntaxError>)
        ensures
            match r {
                Ok((b, next)) => block_at(toks@, pos as int) == Ok::<(BlockModel, int), SyntaxError>((b.view(), next as int))
                    && pos < next <= toks@.len() && b.comments.wf() && b.comments.view().len() == 0,
                Err(e) => block_at(toks@, pos as int) == Err::<(BlockModel, int), SyntaxError>(e),
            },
    {
        let n = toks.len();
        let name = match Self::header(toks, pos) {
            Ok(name) => name,
            Err(e) => {
                return Err(e);
            },
        };
        let mut b = RootModuleSource {
            name,
            inclusion_pats: Vec::new(),
            exclusion_pats: Vec::new(),
            aliases: Vec::new(),
            comments: CommentMap::new(),
        };
        assert(b.view() == (BlockModel {
            name: name@,
            inclusions: Seq::empty(),
            exclusions: Seq::empty(),
            aliases: Seq::empty(),
        })) by {
            assert(pattern_views(b.inclusion_pats@) =~= Seq::empty());
            assert(pattern_views(b.exclusion_pats@) =~= Seq::empty());
            assert(alias_views(b.aliases@) =~= Seq::empty());
        }
        let mut at: usize = pos + 1;
        while at < n && !Self::is_header(toks, at)
            invariant
                n == toks@.len(),
                pos < at <= n,
                b.comments.wf(),
                b.comments.view().len() == 0,
                block_at(toks@, pos as int) == block_body(toks@, at as int, b.view()),
            decreases n - at,
        {
            let ghost before = b.view();
            if Self::is_alias_keyword(toks, at) {
                let (alias, eq_pos) = match Pattern::parse(toks, at + 1) {
                    Ok(x) => x,
                    Err(e) => {
                        return Err(e);
                    },
                };
                if !is_punct(toks, eq_pos, '=') {
                    return Err(SyntaxError { position: eq_pos, kind: SyntaxErrorKind::ExpectedEquals });
                }
                let (path, end_pos) = match Pattern::parse(toks, eq_pos + 1) {
                    Ok(x) => x,
                    Err(e) => {
                        return Err(e);
                    },
                };
                b.insert_alias(alias, path);
                at = end_pos;
            } else if is_punct(toks, at, '!') {
                let (p, next) = match Pattern::parse(toks, at + 1) {
                    Ok(x) => x,
                    Err(e) => {
                        return Err(e);
                    },
                };
                let ghost pv = p.view();
                b.exclusion_pats.push(p);
                assert(pattern_views(b.exclusion_pats@) =~= before.exclusions.push(pv));
                at = next;
            } else {
                let (p, next) = match Pattern::parse(toks, at) {
                    Ok(x) => x,
                    Err(e) => {
                        return Err(e);
                    },
                };
                let ghost pv = p.view();
                b.inclusion_pats.push(p);
                assert(pattern_views(b.inclusion_pats@) =~= before.inclusions.push(pv));
                at = next;
            }
        }
        Ok((b, at))
    }

    fn is_header(toks: &Vec<Token>, pos: usize) -> (r: bool)
        ensures
            r == bracket_at(toks@, pos as int),
    {
        if pos < toks.len() {
            match &toks[pos] {
                Token::Group(d, _) => *d == Delimiter::Bracket,
                _ => false,
            }
        } else {
            false
        }
    }

    fn is_alias_keyword(toks: &Vec<Token>, pos: usize) -> (r: bool)
        ensures
            r == alias_keyword_at(toks@, pos as int),
    {
        if pos < toks.len() {
            match &toks[pos] {
                Token::Ident(s) => {
                    let kw = String::from_str("alias");
                    proof {
                        reveal_strlit("alias");
                    }
                    assert(kw@ =~= seq!['a', 'l', 'i', 'a', 's']);
                    *s == kw
                },
                _ => false,
            }
        } else {
            false
        }
    }

    fn header(toks: &Vec<Token>, pos: usize) -> (r: Result<String, SyntaxError>)
        ensures
            match r {
                Ok(n) => header_at(toks@, pos as int) == Ok::<Seq<char>, SyntaxError>(n@) && pos < toks@.len(),
                Err(e) => header_at(toks@, pos as int) == Err::<Seq<char>, SyntaxError>(e),
            },
    {
        if !Self::is_header(toks, pos) {
            return Err(SyntaxError { position: pos, kind: SyntaxErrorKind::ExpectedHeader });
        }
        match &toks[pos] {
            Token::Group(_, inner) => match ident_token(inner, 0) {
                None => Err(SyntaxError { position: pos, kind: SyntaxErrorKind::ExpectedHeaderName }),
                Some(n) => if inner.len() > 1 {
                    Err(SyntaxError { position: pos, kind: SyntaxErrorKind::UnexpectedToken })
                } else {
                    Ok(n)
                },
            },
            _ => Err(SyntaxError { position: pos, kind: SyntaxErrorKind::ExpectedHeader }),
        }
    }
}

} // verus!
verus! {

/// The glob strings of a block's inclusions.
pub open spec fn inclusion_strings(b: BlockModel) -> Seq<Seq<char>> {
    Seq::new(b.inclusions.len(), |i: int| render(b.inclusions[i]))
}

/// The glob strings of a block's exclusions.
pub open spec fn exclusion_strings(b: BlockModel) -> Seq<Seq<char>> {
    Seq::new(b.exclusions.len(), |i: int| render(b.exclusions[i]))
}

/// The literal patterns of a block: inclusions, then exclusions marked `!`.
pub open spec fn literal_strings(b: BlockModel) -> Seq<Seq<char>> {
    inclusion_strings(b) + Seq::new(b.exclusions.len(), |i: int| seq!['!'] + render(b.exclusions[i]))
}

/// What the walk of a block consults.
pub open spec fn block_selection(b: BlockModel) -> crate::field::Selection {
    crate::field::Selection {
        inclusions: inclusion_strings(b),
        exclusions: exclusion_strings(b),
        aliases: Seq::new(b.aliases.len(), |i: int| (render(b.aliases[i].0), render(b.aliases[i].1))),
    }
}

/// A glob set can be had of these globs: each parses, together they stay
/// within the size bound, and the set builds.
pub open spec fn set_compiles(ps: Seq<Seq<char>>) -> bool {
    &&& forall|i: int| 0 <= i < ps.len() ==> glob_parses(#[trigger] ps[i])
    &&& globs_char_len(ps) <= GLOB_SET_CHAR_LIMIT
    &&& globs_build(ps)
}

/// The block's inclusion set and exclusion set can both be had.
pub open spec fn globs_compile(b: BlockModel) -> bool {
    set_compiles(inclusion_strings(b)) && set_compiles(exclusion_strings(b))
}

pub open spec fn pattern_strings(v: Seq<Pattern>) -> Seq<Seq<char>> {
    Seq::new(v.len(), |i: int| render(v[i].view()))
}

proof fn lemma_char_len_prefix(ps: Seq<Seq<char>>, k: int)
    requires
        0 <= k <= ps.len(),
    ensures
        globs_char_len(ps.subrange(0, k)) <= globs_char_len(ps),
    decreases ps.len(),
{
    if k < ps.len() {
        lemma_char_len_prefix(ps.drop_last(), k);
        assert(ps.drop_last().subrange(0, k) =~= ps.subrange(0, k));
    } else {
        assert(ps.subrange(0, k) =~= ps);
    }
}

/// The glob set of `pats`, or the text of what cannot be had.
fn glob_set_of(pats: &Vec<Pattern>) -> (r: Result<globset::GlobSet, String>)
    ensures
        r is Ok <==> set_compiles(pattern_strings(pats@)),
        r matches Ok(set) ==> set_globs(set) == pattern_strings(pats@),
{
    let ghost ps = pattern_strings(pats@);
    let mut builder = glob_builder();
    let mut total: usize = 0;
    let mut listing: Vec<char> = Vec::new();
    assert(ps.subrange(0, 0) =~= Seq::<Seq<char>>::empty());
    let mut i: usize = 0;
    while i < pats.len()
        invariant
            ps == pattern_strings(pats@),
            i <= pats@.len(),
            builder_globs(builder) == ps.subrange(0, i as int),
            total == globs_char_len(ps.subrange(0, i as int)),
            total <= GLOB_SET_CHAR_LIMIT,
            forall|j: int| 0 <= j < i ==> glob_parses(#[trigger] ps[j]),
        decreases pats.len() - i,
    {
        let s = pats[i].to_string();
        assert(s@ == ps[i as int]);
        let n = chars_of(s.as_str()).len();
        assert(ps.subrange(0, i + 1).drop_last() =~= ps.subrange(0, i as int));
        if n > GLOB_SET_CHAR_LIMIT - total {
            proof {
                lemma_char_len_prefix(ps, i + 1);
            }
            return Err(s);
        }
        if !add_glob(&mut builder, s.as_str()) {
            return Err(s);
        }
        if i > 0 {
            listing.push(',');
            listing.push(' ');
        }
        crate::text::append_chars(&mut listing, &chars_of(s.as_str()));
        total = total + n;
        i = i + 1;
    }
    assert(ps.subrange(0, pats@.len() as int) =~= ps);
    match build_glob_set(&builder) {
        Some(set) => Ok(set),
        None => Err(string_of(&listing)),
    }
}

/// Why generation failed.
#[derive(Debug)]
pub enum GenerationError {
    Syntax(SyntaxError),
    /// The decoder's message.
    Document(String),
    /// A pattern whose glob does not compile.
    BadGlob(String),
    Emit(crate::emit::EmitError),
}

/// The collection that a block builds over `toml`: its glob sets are those
/// of the block's inclusion and exclusion strings, its literals the block's
/// literal strings, its aliases and comments the block's own, and its root
/// the document.
pub open spec fn fields_as_selected<'a>(fields: TomlFields<'a>, source: RootModuleSource, toml: TomlValue) -> bool {
    &&& fields.patterns.inclusions matches Some(set) && set_globs(set) == inclusion_strings(source.view())
    &&& fields.patterns.exclusions matches Some(set) && set_globs(set) == exclusion_strings(source.view())
    &&& views_of_strings(fields.patterns.literals@) == literal_strings(source.view())
    &&& fields.aliases matches Some(a) && alias_views(a@) == source.view().aliases
    &&& fields.comments matches Some(c) && c.wf() && c.view() == source.comments.view()
    &&& fields.root_value matches Some(r) && *r == toml
}

/// A block together with the fields it selects from one document.
pub struct RootModule<'a> {
    pub source: RootModuleSource,
    pub toml: Option<&'a TomlValue>,
    pub fields: TomlFields<'a>,
}

pub(crate) fn duplicate_aliases(v: &Vec<(Pattern, Pattern)>) -> (r: Vec<(Pattern, Pattern)>)
    ensures
        alias_views(r@) == alias_views(v@),
{
    let mut out: Vec<(Pattern, Pattern)> = Vec::new();
    let mut i: usize = 0;
    while i < v.len()
        invariant
            i <= v@.len(),
            alias_views(out@) == alias_views(v@).subrange(0, i as int),
        decreases v.len() - i,
    {
        let ghost before = alias_views(out@);
        let a = v[i].0.duplicate();
        let b = v[i].1.duplicate();
        let ghost pair = (a.view(), b.view());
        out.push((a, b));
        assert(alias_views(out@) =~= before.push(pair));
        i = i + 1;
        assert(alias_views(out@) =~= alias_views(v@).subrange(0, i as int));
    }
    assert(alias_views(v@).subrange(0, v@.len() as int) =~= alias_views(v@));
    out
}

impl<'a> RootModule<'a> {
    pub fn from(source: RootModuleSource) -> (r: Self)
        ensures
            r.source == source,
            r.toml is None,
    {
        RootModule { source, toml: None, fields: TomlFields::new() }
    }

    /// Sets the document that the block selects from.
    pub fn with_toml(self, toml: &'a TomlValue) -> (r: Self)
        ensures
            r.source == self.source,
            r.toml == Some(toml),
    {
        RootModule { toml: Some(toml), ..self }
    }

    /// Selects the block's fields from `toml`, with `comments` as the
    /// document's comments.
    pub fn new(source: RootModuleSource, toml: &'a TomlValue, comments: CommentMap) -> (r: Result<Self, GenerationError>)
        requires
            comments.wf(),
        ensures
            r is Ok <==> globs_compile(source.view()),
            r matches Err(e) ==> e is BadGlob,
            r matches Ok(m) ==> m.source.view() == source.view() && m.source.comments == comments && m.toml
                == Some(toml) && m.fields.records() == crate::field::built(
                Seq::empty(),
                *toml,
                block_selection(source.view()),
                literal_strings(source.view()),
                Some(comments.view()),
            ),
            r matches Ok(m) ==> fields_as_selected(m.fields, m.source, *toml),
    {
        let RootModuleSource { name, inclusion_pats, exclusion_pats, aliases, comments: _ } = source;
        let source = RootModuleSource { name, inclusion_pats, exclusion_pats, aliases, comments };
        RootModule::from(source).with_toml(toml).build()
    }

    /// Compiles the block's globs and builds its fields (see `built`).
    pub fn build(self) -> (r: Result<Self, GenerationError>)
        requires
            self.toml is Some,
            self.source.comments.wf(),
        ensures
            r is Ok <==> globs_compile(self.source.view()),
            r matches Err(e) ==> e is BadGlob,
            r matches Ok(m) ==> m.source == self.source && m.toml == self.toml && m.fields.records() == crate::field::built(
                Seq::empty(),
                *self.toml->Some_0,
                block_selection(self.source.view()),
                literal_strings(self.source.view()),
                Some(self.source.comments.view()),
            ),
            r matches Ok(m) ==> fields_as_selected(m.fields, self.source, *self.toml->Some_0),
    {
        let ghost b = self.source.view();
        assert(pattern_strings(self.source.inclusion_pats@) =~= inclusion_strings(b));
        assert(pattern_strings(self.source.exclusion_pats@) =~= exclusion_strings(b));
        let inclusions = match glob_set_of(&self.source.inclusion_pats) {
            Ok(set) => set,
            Err(p) => {
                return Err(GenerationError::BadGlob(p));
            },
        };
        let exclusions = match glob_set_of(&self.source.exclusion_pats) {
            Ok(set) => set,
            Err(p) => {
                return Err(GenerationError::BadGlob(p));
            },
        };
        let mut literals: Vec<String> = Vec::new();
        let mut i: usize = 0;
        while i < self.source.inclusion_pats.len()
            invariant
                b == self.source.view(),
                i <= self.source.inclusion_pats@.len(),
                views_of_strings(literals@) == inclusion_strings(b).subrange(0, i as int),
            decreases self.source.inclusion_pats.len() - i,
        {
            let s = self.source.inclusion_pats[i].to_string();
            assert(s@ == inclusion_strings(b)[i as int]);
            let ghost lbefore = views_of_strings(literals@);
            literals.push(s);
            assert(views_of_strings(literals@) =~= lbefore.push(s@));
            i = i + 1;
            assert(views_of_strings(literals@) =~= inclusion_strings(b).subrange(0, i as int));
        }
        assert(inclusion_strings(b).subrange(0, b.inclusions.len() as int) =~= inclusion_strings(b));
        let ghost negated = Seq::new(b.exclusions.len(), |i: int| seq!['!'] + render(b.exclusions[i]));
        let mut i: usize = 0;
        while i < self.source.exclusion_pats.len()
            invariant
                b == self.source.view(),
                negated == Seq::new(b.exclusions.len(), |i: int| seq!['!'] + render(b.exclusions[i])),
                i <= self.source.exclusion_pats@.len(),
                views_of_strings(literals@) == inclusion_strings(b) + negated.subrange(0, i as int),
            decreases self.source.exclusion_pats.len() - i,
        {
            let s = self.source.exclusion_pats[i].to_string();
            let mut marked = vec!['!'];
            crate::text::append_chars(&mut marked, &chars_of(s.as_str()));
            let m = string_of(&marked);
            assert(m@ =~= negated[i as int]);
            let ghost lbefore = views_of_strings(literals@);
            literals.push(m);
            assert(views_of_strings(literals@) =~= lbefore.push(m@));
            i = i + 1;
            assert(views_of_strings(literals@) =~= inclusion_strings(b) + negated.subrange(0, i as int));
        }
        assert(negated.subrange(0, b.exclusions.len() as int) =~= negated);
        let toml = self.toml.unwrap();
        let fields = TomlFields::new().with_root(toml).with_inclusion_globs(Some(inclusions)).with_exclusion_globs(
            Some(exclusions),
        ).with_pat_literals(literals).with_comments(self.source.comments.duplicate()).with_aliases(
            Some(duplicate_aliases(&self.source.aliases)),
        );
        assert(fields.selection() == block_selection(b)) by {
            assert(fields.selection().inclusions =~= block_selection(b).inclusions);
            assert(fields.selection().exclusions =~= block_selection(b).exclusions);
            assert(fields.selection().aliases =~= block_selection(b).aliases);
        }
        assert(fields.records() =~= Seq::empty());
        let fields = fields.build();
        Ok(RootModule { source: self.source, toml: Some(toml), fields })
    }
}

} // verus!
