//! Dotted selection patterns: segments, equality, and their glob form.
use vstd::prelude::*;
use crate::text::{join_with, string_of, append_chars, chars_of};
use crate::token::{ident_at, ident_token, is_punct, punct_at, SyntaxError, SyntaxErrorKind, Token};

verus! {

/// One segment of a pattern.
#[derive(Debug, Hash)]
pub enum PatternSegment {
    /// An identifier; a kebab-joined run `a-b-c` is kept as `a_b_c`.
    Ident(String),
    /// `*`
    Star,
    /// `**`
    DoubleStar,
    /// `!`
    Negation,
}

pub ghost enum SegmentModel {
    Ident(Seq<char>),
    Star,
    DoubleStar,
    Negation,
}

impl PatternSegment {
    pub open spec fn view(&self) -> SegmentModel {
        match self {
            PatternSegment::Ident(s) => SegmentModel::Ident(s@),
            PatternSegment::Star => SegmentModel::Star,
            PatternSegment::DoubleStar => SegmentModel::DoubleStar,
            PatternSegment::Negation => SegmentModel::Negation,
        }
    }

    pub fn duplicate(&self) -> (r: PatternSegment)
        ensures
            r.view() == self.view(),
    {
        match self {
            PatternSegment::Ident(s) => PatternSegment::Ident(s.clone()),
            PatternSegment::Star => PatternSegment::Star,
            PatternSegment::DoubleStar => PatternSegment::DoubleStar,
            PatternSegment::Negation => PatternSegment::Negation,
        }
    }

    pub fn same_as(&self, other: &PatternSegment) -> (r: bool)
        ensures
            r == (self.view() == other.view()),
    {
        match (self, other) {
            (PatternSegment::Ident(a), PatternSegment::Ident(b)) => {
                let r = *a == *b;
                r
            },
            (PatternSegment::Star, PatternSegment::Star) => true,
            (PatternSegment::DoubleStar, PatternSegment::DoubleStar) => true,
            (PatternSegment::Negation, PatternSegment::Negation) => true,
            _ => false,
        }
    }
}

/// The text of a segment as it appears in a glob.
pub open spec fn segment_text(s: SegmentModel) -> Seq<char> {
    match s {
        SegmentModel::Ident(name) => name,
        SegmentModel::Star => seq!['*'],
        SegmentModel::DoubleStar => seq!['*', '*'],
        SegmentModel::Negation => seq!['!'],
    }
}

/// The glob string of a pattern: its segments joined by `.`.
pub open spec fn render(segs: Seq<SegmentModel>) -> Seq<char> {
    join_with(Seq::new(segs.len(), |i: int| segment_text(segs[i])), seq!['.'])
}

/// A dotted pattern over document paths.
#[derive(Debug, Hash)]
pub struct Pattern {
    pub segments: Vec<PatternSegment>,
}

impl Pattern {
    pub open spec fn view(&self) -> Seq<SegmentModel> {
        Seq::new(self.segments@.len(), |i: int| self.segments@[i].view())
    }

    pub fn new(segments: Vec<PatternSegment>) -> (r: Pattern)
        ensures
            r.segments@ == segments@,
    {
        Pattern { segments }
    }

    pub fn duplicate(&self) -> (r: Pattern)
        ensures
            r.view() == self.view(),
    {
        let mut out: Vec<PatternSegment> = Vec::new();
        let mut i: usize = 0;
        while i < self.segments.len()
            invariant
                i <= self.segments@.len(),
                out@.len() == i,
                forall|j: int| 0 <= j < i ==> #[trigger] out@[j].view() == self.segments@[j].view(),
            decreases self.segments.len() - i,
        {
            out.push(self.segments[i].duplicate());
            i = i + 1;
        }
        let r = Pattern { segments: out };
        assert(r.view() =~= self.view());
        r
    }

    /// The glob string of this pattern (see `render`).
    pub fn to_string(&self) -> (r: String)
        ensures
            r@ == render(self.view()),
    {
        let ghost texts = Seq::new(self.view().len(), |i: int| segment_text(self.view()[i]));
        let mut out: Vec<char> = Vec::new();
        let mut i: usize = 0;
        while i < self.segments.len()
            invariant
                i <= self.segments@.len(),
                texts == Seq::new(self.view().len(), |i: int| segment_text(self.view()[i])),
                out@ == join_with(texts.subrange(0, i as int), seq!['.']),
            decreases self.segments.len() - i,
        {
            let ghost before = out@;
            if i > 0 {
                out.push('.');
            }
            let piece: Vec<char> = match &self.segments[i] {
                PatternSegment::Ident(s) => chars_of(s.as_str()),
                PatternSegment::Star => vec!['*'],
                PatternSegment::DoubleStar => vec!['*', '*'],
                PatternSegment::Negation => vec!['!'],
            };
            assert(piece@ =~= texts[i as int]);
            append_chars(&mut out, &piece);
            let ghost sub = texts.subrange(0, i + 1);
            assert(sub.drop_last() =~= texts.subrange(0, i as int));
            if i == 0 {
                assert(out@ =~= sub[0]);
            } else {
                assert(out@ =~= before + seq!['.'] + sub.last());
            }
            i = i + 1;
        }
        assert(texts.subrange(0, texts.len() as int) =~= texts);
        string_of(&out)
    }
}

impl PartialEq for Pattern {
    fn eq(&self, other: &Pattern) -> (r: bool) {
        if self.segments.len() != other.segments.len() {
            assert(self.view().len() != other.view().len());
            return false;
        }
        let mut i: usize = 0;
        while i < self.segments.len()
            invariant
                i <= self.segments@.len() == other.segments@.len(),
                forall|j: int| 0 <= j < i ==> self.view()[j] == other.view()[j],
            decreases self.segments.len() - i,
        {
            if !self.segments[i].same_as(&other.segments[i]) {
                assert(self.view()[i as int] != other.view()[i as int]);
                return false;
            }
            i = i + 1;
        }
        assert(self.view() =~= other.view());
        true
    }
}

impl vstd::std_specs::cmp::PartialEqSpecImpl for Pattern {
    open spec fn obeys_eq_spec() -> bool {
        true
    }

    open spec fn eq_spec(&self, other: &Pattern) -> bool {
        self.view() == other.view()
    }
}

impl Eq for Pattern {
}

pub open spec fn syntax_error(pos: int, kind: SyntaxErrorKind) -> SyntaxError {
    SyntaxError { position: pos as usize, kind }
}

/// The rest of a kebab-joined identifier from `pos`: each `-` with the
/// identifier after it, joined to `acc` with `_`.
pub open spec fn kebab_run(toks: Seq<Token>, pos: int, acc: Seq<char>) -> Result<(Seq<char>, int), SyntaxError>
    decreases toks.len() - pos,
{
    if punct_at(toks, pos, '-') {
        match ident_at(toks, pos + 1) {
            Some(s) => kebab_run(toks, pos + 2, acc + seq!['_'] + s),
            None => Err(syntax_error(pos + 1, SyntaxErrorKind::ExpectedIdent)),
        }
    } else {
        Ok((acc, pos))
    }
}

/// The segment that starts at `pos`, and where it ends.
pub open spec fn segment_at(toks: Seq<Token>, pos: int) -> Result<(SegmentModel, int), SyntaxError> {
    if punct_at(toks, pos, '*') {
        if punct_at(toks, pos + 1, '*') {
            Ok((SegmentModel::DoubleStar, pos + 2))
        } else {
            Ok((SegmentModel::Star, pos + 1))
        }
    } else if punct_at(toks, pos, '!') {
        Ok((SegmentModel::Negation, pos + 1))
    } else {
        match ident_at(toks, pos) {
            Some(s) => match kebab_run(toks, pos + 1, s) {
                Ok((name, next)) => Ok((SegmentModel::Ident(name), next)),
                Err(e) => Err(e),
            },
            None => Err(syntax_error(pos, SyntaxErrorKind::ExpectedIdent)),
        }
    }
}

/// The segments `.`-joined from `pos` on, after `segs`.
pub open spec fn pattern_rest(toks: Seq<Token>, pos: int, segs: Seq<SegmentModel>) -> Result<(Seq<SegmentModel>, int), SyntaxError>
    decreases toks.len() - pos,
{
    if punct_at(toks, pos, '.') {
        match segment_at(toks, pos + 1) {
            Ok((s, next)) => if pos < next <= toks.len() {
                pattern_rest(toks, next, segs.push(s))
            } else {
                Ok((segs.push(s), next))
            },
            Err(e) => Err(e),
        }
    } else {
        Ok((segs, pos))
    }
}

/// The pattern that starts at `pos`, and where it ends.
pub open spec fn pattern_at(toks: Seq<Token>, pos: int) -> Result<(Seq<SegmentModel>, int), SyntaxError> {
    if pos >= toks.len() {
        Err(syntax_error(pos, SyntaxErrorKind::ExpectedPattern))
    } else {
        match segment_at(toks, pos) {
            Ok((s, next)) => pattern_rest(toks, next, seq![s]),
            Err(e) => Err(e),
        }
    }
}

impl PatternSegment {
    /// Parses the segment at `pos` (see `segment_at`).
    pub fn parse(toks: &Vec<Token>, pos: usize) -> (r: Result<(PatternSegment, usize), SyntaxError>)
        ensures
            match r {
                Ok((s, next)) => segment_at(toks@, pos as int) == Ok::<(SegmentModel, int), SyntaxError>((s.view(), next as int))
                    && pos < next <= toks@.len(),
                Err(e) => segment_at(toks@, pos as int) == Err::<(SegmentModel, int), SyntaxError>(e),
            },
    {
        let n = toks.len();
        if is_punct(toks, pos, '*') {
            if is_punct(toks, pos + 1, '*') {
                return Ok((PatternSegment::DoubleStar, pos + 2));
            }
            return Ok((PatternSegment::Star, pos + 1));
        }
        if is_punct(toks, pos, '!') {
            return Ok((PatternSegment::Negation, pos + 1));
        }
        match ident_token(toks, pos) {
            Some(first) => {
                let mut combined = chars_of(first.as_str());
                let mut at: usize = pos + 1;
                assert(kebab_run(toks@, pos + 1, first@) == kebab_run(toks@, at as int, combined@));
                while is_punct(toks, at, '-')
                    invariant
                        n == toks@.len(),
                        !punct_at(toks@, pos as int, '*'),
                        !punct_at(toks@, pos as int, '!'),
                        ident_at(toks@, pos as int) == Some(first@),
                        pos < at <= toks@.len(),
                        kebab_run(toks@, pos + 1, first@) == kebab_run(toks@, at as int, combined@),
                    decreases toks@.len() - at,
                {
                    match ident_token(toks, at + 1) {
                        Some(next) => {
                            let ghost c0 = combined@;
                            combined.push('_');
                            append_chars(&mut combined, &chars_of(next.as_str()));
                            assert(combined@ =~= c0 + seq!['_'] + next@);
                            at = at + 2;
                        },
                        None => {
                            assert(kebab_run(toks@, at as int, combined@) == Err::<(Seq<char>, int), SyntaxError>(
                                syntax_error(at + 1, SyntaxErrorKind::ExpectedIdent),
                            ));
                            return Err(SyntaxError { position: at + 1, kind: SyntaxErrorKind::ExpectedIdent });
                        },
                    }
                }
                Ok((PatternSegment::Ident(string_of(&combined)), at))
            },
            None => Err(SyntaxError { position: pos, kind: SyntaxErrorKind::ExpectedIdent }),
        }
    }
}

impl Pattern {
    /// Parses the pattern at `pos` (see `pattern_at`).
    pub fn parse(toks: &Vec<Token>, pos: usize) -> (r: Result<(Pattern, usize), SyntaxError>)
        ensures
            match r {
                Ok((p, next)) => pattern_at(toks@, pos as int) == Ok::<(Seq<SegmentModel>, int), SyntaxError>((p.view(), next as int))
                    && pos < next <= toks@.len(),
                Err(e) => pattern_at(toks@, pos as int) == Err::<(Seq<SegmentModel>, int), SyntaxError>(e),
            },
    {
        let n = toks.len();
        if pos >= n {
            return Err(SyntaxError { position: pos, kind: SyntaxErrorKind::ExpectedPattern });
        }
        let (first, mut at) = match PatternSegment::parse(toks, pos) {
            Ok(x) => x,
            Err(e) => {
                return Err(e);
            },
        };
        let mut segments: Vec<PatternSegment> = Vec::new();
        segments.push(first);
        assert(Pattern { segments }.view() =~= seq![first.view()]);
        while is_punct(toks, at, '.')
            invariant
                n == toks@.len(),
                pos < at <= toks@.len(),
                pattern_at(toks@, pos as int) == pattern_rest(toks@, at as int, Pattern { segments }.view()),
            decreases toks@.len() - at,
        {
            match PatternSegment::parse(toks, at + 1) {
                Ok((s, next)) => {
                    let ghost before = Pattern { segments }.view();
                    segments.push(s);
                    assert(Pattern { segments }.view() =~= before.push(s.view()));
                    at = next;
                },
                Err(e) => {
                    return Err(e);
                },
            }
        }
        Ok((Pattern { segments }, at))
    }
}

} // verus!
