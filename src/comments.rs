//! Recovering the comments that a TOML decoder drops, keyed by dotted path.
use vstd::prelude::*;
use crate::text::{
    chars_of, find_char, find_first, has_run, join_chars, join_with, slice_chars, split_chars,
    split_on, string_of, trim, trim_chars, views, contains_run,
};

verus! {

/// Builds the map that `CommentMap` views its entries as: later entries win.
pub open spec fn map_of(es: Seq<(Seq<char>, Seq<char>)>) -> Map<Seq<char>, Seq<char>>
    decreases es.len(),
{
    if es.len() == 0 {
        Map::empty()
    } else {
        map_of(es.drop_last()).insert(es.last().0, es.last().1)
    }
}

pub open spec fn keys_unique(es: Seq<(Seq<char>, Seq<char>)>) -> bool {
    forall|i: int, j: int| 0 <= i < j < es.len() ==> es[i].0 != es[j].0
}

pub proof fn lemma_map_of(es: Seq<(Seq<char>, Seq<char>)>)
    ensures
        map_of(es).dom().finite(),
        forall|k: Seq<char>| #[trigger]
            map_of(es).contains_key(k) <==> exists|i: int| 0 <= i < es.len() && es[i].0 == k,
        keys_unique(es) ==> forall|i: int|
            0 <= i < es.len() ==> #[trigger] map_of(es)[es[i].0] == es[i].1,
        keys_unique(es) ==> map_of(es).dom().len() == es.len(),
    decreases es.len(),
{
    if es.len() > 0 {
        let init = es.drop_last();
        lemma_map_of(init);
        assert forall|k: Seq<char>| #[trigger]
            map_of(es).contains_key(k) <==> exists|i: int| 0 <= i < es.len() && es[i].0 == k by {
            if map_of(es).contains_key(k) && k != es.last().0 {
                let i = choose|i: int| 0 <= i < init.len() && init[i].0 == k;
                assert(es[i].0 == k);
            }
            if exists|i: int| 0 <= i < es.len() && es[i].0 == k {
                let i = choose|i: int| 0 <= i < es.len() && es[i].0 == k;
                if i < init.len() {
                    assert(init[i].0 == k);
                }
            }
        }
        if keys_unique(es) {
            assert(keys_unique(init));
            assert forall|i: int| 0 <= i < es.len() implies #[trigger] map_of(es)[es[i].0]
                == es[i].1 by {
                if i < init.len() {
                    assert(init[i].0 == es[i].0);
                    assert(es[i].0 != es.last().0);
                }
            }
            assert(!map_of(init).contains_key(es.last().0)) by {
                if map_of(init).contains_key(es.last().0) {
                    let i = choose|i: int| 0 <= i < init.len() && init[i].0 == es.last().0;
                    assert(es[i].0 == es[es.len() - 1].0);
                }
            }
        }
    }
}

/// Comments by dotted path: a map with one entry per key.
pub struct CommentMap {
    entries: Vec<(String, String)>,
}

impl CommentMap {
    pub closed spec fn pairs(&self) -> Seq<(Seq<char>, Seq<char>)> {
        Seq::new(self.entries@.len(), |i: int| (self.entries@[i].0@, self.entries@[i].1@))
    }

    pub closed spec fn wf(&self) -> bool {
        keys_unique(self.pairs())
    }

    pub closed spec fn view(&self) -> Map<Seq<char>, Seq<char>> {
        map_of(self.pairs())
    }

    pub fn new() -> (r: CommentMap)
        ensures
            r.wf(),
            r.view() == Map::<Seq<char>, Seq<char>>::empty(),
    {
        let r = CommentMap { entries: Vec::new() };
        assert(r.pairs() =~= Seq::empty());
        r
    }

    fn position(&self, key: &String) -> (r: Option<usize>)
        ensures
            match r {
                Some(i) => i < self.entries@.len() && self.pairs()[i as int].0 == key@,
                None => forall|i: int| 0 <= i < self.entries@.len() ==> self.pairs()[i].0 != key@,
            },
    {
        let mut i: usize = 0;
        while i < self.entries.len()
            invariant
                i <= self.entries@.len(),
                forall|j: int| 0 <= j < i ==> self.pairs()[j].0 != key@,
            decreases self.entries.len() - i,
        {
            if self.entries[i].0 == *key {
                return Some(i);
            }
            i = i + 1;
        }
        None
    }

    pub fn duplicate(&self) -> (r: CommentMap)
        requires
            self.wf(),
        ensures
            r.wf(),
            r.view() == self.view(),
    {
        let mut entries: Vec<(String, String)> = Vec::new();
        let mut i: usize = 0;
        while i < self.entries.len()
            invariant
                i <= self.entries@.len(),
                entries@.len() == i,
                forall|j: int| 0 <= j < i ==> (#[trigger] entries@[j]).0@ == self.entries@[j].0@ && entries@[j].1@ == self.entries@[j].1@,
            decreases self.entries.len() - i,
        {
            let (k, v) = (self.entries[i].0.clone(), self.entries[i].1.clone());
            entries.push((k, v));
            i = i + 1;
        }
        let r = CommentMap { entries };
        assert(r.pairs() =~= self.pairs());
        r
    }

    /// Sets the comment of `key`, replacing any earlier one.
    pub fn insert(&mut self, key: String, value: String)
        requires
            old(self).wf(),
        ensures
            final(self).wf(),
            final(self).view() == old(self).view().insert(key@, value@),
    {
        let ghost k = key@;
        let ghost v = value@;
        proof {
            lemma_map_of(self.pairs());
        }
        match self.position(&key) {
            Some(i) => {
                self.entries.set(i, (key, value));
                let ghost es = old(self).pairs();
                assert(self.pairs() =~= es.update(i as int, (k, v)));
                proof {
                    lemma_map_of(self.pairs());
                }
                assert(self.view() =~= old(self).view().insert(k, v)) by {
                    assert forall|q: Seq<char>| #[trigger]
                        self.view().contains_key(q) == old(self).view().insert(k, v).contains_key(q) by {
                        if self.view().contains_key(q) {
                            let j = choose|j: int| 0 <= j < self.pairs().len() && self.pairs()[j].0 == q;
                            if j != i {
                                assert(es[j].0 == q);
                            }
                        }
                        if old(self).view().contains_key(q) {
                            let j = choose|j: int| 0 <= j < es.len() && es[j].0 == q;
                            assert(self.pairs()[j].0 == q);
                        }
                    }
                    assert forall|q: Seq<char>| self.view().contains_key(q) implies self.view()[q]
                        == old(self).view().insert(k, v)[q] by {
                        let j = choose|j: int| 0 <= j < self.pairs().len() && self.pairs()[j].0 == q;
                        assert(self.view()[self.pairs()[j].0] == self.pairs()[j].1);
                        if j != i {
                            assert(old(self).view()[es[j].0] == es[j].1);
                        }
                    }
                }
            },
            None => {
                self.entries.push((key, value));
                assert(self.pairs() =~= old(self).pairs().push((k, v)));
                assert(self.pairs().drop_last() =~= old(self).pairs());
            },
        }
    }

    /// The comment of `key`, if it has one.
    pub fn get(&self, key: &str) -> (r: Option<&String>)
        requires
            self.wf(),
        ensures
            match r {
                Some(v) => self.view().contains_key(key@) && self.view()[key@] == v@,
                None => !self.view().contains_key(key@),
            },
    {
        proof {
            lemma_map_of(self.pairs());
        }
        let k = String::from_str(key);
        match self.position(&k) {
            Some(i) => {
                assert(self.view()[self.pairs()[i as int].0] == self.pairs()[i as int].1);
                Some(&self.entries[i].1)
            },
            None => None,
        }
    }

    pub fn contains_key(&self, key: &str) -> (r: bool)
        requires
            self.wf(),
        ensures
            r == self.view().contains_key(key@),
    {
        self.get(key).is_some()
    }

    /// The number of keys.
    pub fn len(&self) -> (r: usize)
        requires
            self.wf(),
        ensures
            r == self.view().len(),
    {
        proof {
            lemma_map_of(self.pairs());
        }
        self.entries.len()
    }

    pub fn is_empty(&self) -> (r: bool)
        requires
            self.wf(),
        ensures
            r == (self.view().len() == 0),
    {
        self.len() == 0
    }
}

/// Which multi-line string, if any, the scan is inside.
#[derive(Clone, Copy, Debug, PartialEq, Eq, Structural)]
pub enum StringState {
    Outside,
    MultiSingleQuote,
    MultiDoubleQuote,
}

/// What the scan knows after a prefix of the lines.
pub ghost struct HarvestState {
    pub comments: Map<Seq<char>, Seq<char>>,
    pub pending: Seq<Seq<char>>,
    pub path: Seq<Seq<char>>,
    pub mode: StringState,
}

pub open spec fn triple_double() -> Seq<char> {
    seq!['"', '"', '"']
}

pub open spec fn triple_single() -> Seq<char> {
    seq!['\'', '\'', '\'']
}

/// The comment text after the first `#` of a line, when that `#` stands past
/// position `after` and leaves something once trimmed.
pub open spec fn inline_comment(t: Seq<char>, after: int) -> Option<Seq<char>> {
    match find_char(t, '#') {
        Some(p) => {
            let c = trim(t.subrange(p + 1, t.len() as int));
            if p > after && c.len() > 0 {
                Some(c)
            } else {
                None
            }
        },
        None => None,
    }
}

pub open spec fn with_inline(pending: Seq<Seq<char>>, t: Seq<char>, after: int) -> Seq<Seq<char>> {
    match inline_comment(t, after) {
        Some(c) => pending.push(c),
        None => pending,
    }
}

/// A comment line without its `#` and one space after it.
pub open spec fn comment_text(t: Seq<char>) -> Seq<char> {
    let rest = t.drop_first();
    if rest.len() > 0 && rest[0] == ' ' {
        rest.drop_first()
    } else {
        rest
    }
}

/// `m` with the joined comment lines under `key`, when there are any.
pub open spec fn record(m: Map<Seq<char>, Seq<char>>, key: Seq<char>, parts: Seq<Seq<char>>) -> Map<
    Seq<char>,
    Seq<char>,
> {
    if parts.len() > 0 {
        m.insert(key, join_with(parts, seq!['\n']))
    } else {
        m
    }
}

pub open spec fn trim_all(parts: Seq<Seq<char>>) -> Seq<Seq<char>> {
    Seq::new(parts.len(), |i: int| trim(parts[i]))
}

/// The dotted path that an assignment line `t`, with its `=` at `p`, defines.
pub open spec fn key_path(path: Seq<Seq<char>>, t: Seq<char>, p: int) -> Seq<char> {
    join_with(path + trim_all(split_on(trim(t.subrange(0, p)), '.')), seq!['.'])
}

/// The scan of one line. A blank line and a line that opens a multi-line
/// string both drop the pending comment lines; a header or key line records
/// them, with its inline comment, under its dotted path.
pub open spec fn step(st: HarvestState, line: Seq<char>) -> HarvestState {
    let t = trim(line);
    if t.len() == 0 {
        HarvestState { pending: Seq::empty(), ..st }
    } else if st.mode != StringState::Outside {
        if (st.mode == StringState::MultiSingleQuote && contains_run(t, triple_single())) || (
        st.mode == StringState::MultiDoubleQuote && contains_run(t, triple_double())) {
            HarvestState { mode: StringState::Outside, ..st }
        } else {
            st
        }
    } else if contains_run(t, triple_double()) && !contains_run(t, triple_double() + triple_double()) {
        HarvestState { mode: StringState::MultiDoubleQuote, pending: Seq::empty(), ..st }
    } else if contains_run(t, triple_single()) && !contains_run(t, triple_single() + triple_single()) {
        HarvestState { mode: StringState::MultiSingleQuote, pending: Seq::empty(), ..st }
    } else if t[0] == '[' && find_char(t, ']') is Some {
        let e = find_char(t, ']')->0;
        let section = t.subrange(1, e);
        HarvestState {
            comments: record(st.comments, section, with_inline(st.pending, t, e)),
            pending: Seq::empty(),
            path: split_on(section, '.'),
            mode: st.mode,
        }
    } else if t[0] == '#' {
        HarvestState { pending: st.pending.push(comment_text(t)), ..st }
    } else if find_char(t, '=') is Some {
        let p = find_char(t, '=')->0;
        HarvestState {
            comments: record(st.comments, key_path(st.path, t, p), with_inline(st.pending, t, p)),
            pending: Seq::empty(),
            ..st
        }
    } else {
        HarvestState { pending: Seq::empty(), ..st }
    }
}

/// The scan of `lines`, in order, from `st`.
pub open spec fn run(st: HarvestState, lines: Seq<Seq<char>>) -> HarvestState
    decreases lines.len(),
{
    if lines.len() == 0 {
        st
    } else {
        step(run(st, lines.drop_last()), lines.last())
    }
}

pub open spec fn initial_state() -> HarvestState {
    HarvestState {
        comments: Map::empty(),
        pending: Seq::empty(),
        path: Seq::empty(),
        mode: StringState::Outside,
    }
}

/// The comments of a document, by the dotted path of the header or key that
/// each precedes or ends.
pub open spec fn comments_of(content: Seq<char>) -> Map<Seq<char>, Seq<char>> {
    run(initial_state(), split_on(content, '\n')).comments
}

/// The scan's state in executable form.
struct Harvester {
    comments: CommentMap,
    pending: Vec<Vec<char>>,
    path: Vec<Vec<char>>,
    mode: StringState,
}

impl Harvester {
    closed spec fn model(&self) -> HarvestState {
        HarvestState {
            comments: self.comments.view(),
            pending: views(self.pending@),
            path: views(self.path@),
            mode: self.mode,
        }
    }
}

fn triple(c: char) -> (r: Vec<char>)
    ensures
        r@ == seq![c, c, c],
{
    let r = vec![c, c, c];
    assert(r@ =~= seq![c, c, c]);
    r
}

fn sextuple(c: char) -> (r: Vec<char>)
    ensures
        r@ == seq![c, c, c] + seq![c, c, c],
{
    let r = vec![c, c, c, c, c, c];
    assert(r@ =~= seq![c, c, c] + seq![c, c, c]);
    r
}

/// The inline comment of a line (see `inline_comment`).
fn extract_inline_comment(t: &Vec<char>, after: usize) -> (r: Option<Vec<char>>)
    ensures
        match r {
            Some(c) => inline_comment(t@, after as int) == Some(c@),
            None => inline_comment(t@, after as int) is None,
        },
{
    match find_first(t, '#') {
        Some(p) => {
            let n = t.len();
            if p > after {
                let c = trim_chars(&slice_chars(t, p + 1, n));
                if c.len() > 0 {
                    return Some(c);
                }
            }
            None
        },
        None => None,
    }
}

fn no_lines() -> (r: Vec<Vec<char>>)
    ensures
        views(r@) == Seq::<Seq<char>>::empty(),
{
    let r: Vec<Vec<char>> = Vec::new();
    assert(views(r@) =~= Seq::<Seq<char>>::empty());
    r
}

fn copy_lines(v: &Vec<Vec<char>>) -> (r: Vec<Vec<char>>)
    ensures
        views(r@) == views(v@),
{
    let mut r: Vec<Vec<char>> = Vec::new();
    let mut i: usize = 0;
    while i < v.len()
        invariant
            i <= v@.len(),
            views(r@) == views(v@).subrange(0, i as int),
        decreases v.len() - i,
    {
        let ghost before = views(r@);
        let c = slice_chars(&v[i], 0, v[i].len());
        assert(v@[i as int]@.subrange(0, v@[i as int]@.len() as int) =~= v@[i as int]@);
        r.push(c);
        assert(views(r@) =~= before.push(c@));
        i = i + 1;
        assert(views(r@) =~= views(v@).subrange(0, i as int));
    }
    assert(views(v@).subrange(0, v@.len() as int) =~= views(v@));
    r
}

fn push_inline(pending: &Vec<Vec<char>>, t: &Vec<char>, after: usize) -> (r: Vec<Vec<char>>)
    ensures
        views(r@) == with_inline(views(pending@), t@, after as int),
{
    let mut all = copy_lines(pending);
    match extract_inline_comment(t, after) {
        Some(c) => {
            all.push(c);
            assert(views(all@) =~= views(pending@).push(c@));
        },
        None => {
            assert(views(all@) =~= views(pending@));
        },
    }
    all
}

fn record_comment(comments: &mut CommentMap, key: &Vec<char>, parts: &Vec<Vec<char>>)
    requires
        old(comments).wf(),
    ensures
        final(comments).wf(),
        final(comments).view() == record(old(comments).view(), key@, views(parts@)),
{
    if parts.len() > 0 {
        let nl = vec!['\n'];
        assert(nl@ =~= seq!['\n']);
        comments.insert(string_of(key), string_of(&join_chars(parts, &nl)));
    }
}

fn trim_each(parts: &Vec<Vec<char>>) -> (r: Vec<Vec<char>>)
    ensures
        views(r@) == trim_all(views(parts@)),
{
    let mut r: Vec<Vec<char>> = Vec::new();
    let mut i: usize = 0;
    while i < parts.len()
        invariant
            i <= parts@.len(),
            views(r@) == trim_all(views(parts@)).subrange(0, i as int),
        decreases parts.len() - i,
    {
        let ghost before = views(r@);
        let c = trim_chars(&parts[i]);
        r.push(c);
        assert(views(r@) =~= before.push(c@));
        i = i + 1;
        assert(views(r@) =~= trim_all(views(parts@)).subrange(0, i as int));
    }
    assert(trim_all(views(parts@)).subrange(0, parts@.len() as int) =~= trim_all(views(parts@)));
    r
}

fn harvest_line(h: &mut Harvester, line: &Vec<char>)
    requires
        old(h).comments.wf(),
    ensures
        final(h).comments.wf(),
        final(h).model() == step(old(h).model(), line@),
{
    let t = trim_chars(line);
    if t.len() == 0 {
        h.pending = no_lines();
        assert(h.model() == step(old(h).model(), line@));
        return;
    }
    let dq = triple('"');
    let sq = triple('\'');
    if h.mode != StringState::Outside {
        if (h.mode == StringState::MultiSingleQuote && has_run(&t, &sq)) || (h.mode
            == StringState::MultiDoubleQuote && has_run(&t, &dq)) {
            h.mode = StringState::Outside;
        }
        return;
    }
    if has_run(&t, &dq) && !has_run(&t, &sextuple('"')) {
        h.mode = StringState::MultiDoubleQuote;
        h.pending = no_lines();
        assert(h.model() == step(old(h).model(), line@));
        return;
    } else if has_run(&t, &sq) && !has_run(&t, &sextuple('\'')) {
        h.mode = StringState::MultiSingleQuote;
        h.pending = no_lines();
        assert(h.model() == step(old(h).model(), line@));
        return;
    }
    if t[0] == '[' {
        if let Some(e) = find_first(&t, ']') {
            let section = slice_chars(&t, 1, e);
            let all = push_inline(&h.pending, &t, e);
            record_comment(&mut h.comments, &section, &all);
            h.pending = no_lines();
            h.path = split_chars(&section, '.');
            assert(h.model() == step(old(h).model(), line@));
            return;
        }
    }
    if t[0] == '#' {
        let rest = slice_chars(&t, 1, t.len());
        let text = if rest.len() > 0 && rest[0] == ' ' {
            slice_chars(&rest, 1, rest.len())
        } else {
            rest
        };
        assert(t@.drop_first() =~= t@.subrange(1, t@.len() as int));
        assert(rest@.len() > 0 ==> rest@.drop_first() =~= rest@.subrange(1, rest@.len() as int));
        let ghost before = views(h.pending@);
        h.pending.push(text);
        assert(views(h.pending@) =~= before.push(text@));
        assert(h.model() == step(old(h).model(), line@));
        return;
    }
    match find_first(&t, '=') {
        Some(p) => {
            let key = trim_chars(&slice_chars(&t, 0, p));
            let mut full = copy_lines(&h.path);
            let segs = trim_each(&split_chars(&key, '.'));
            let mut i: usize = 0;
            while i < segs.len()
                invariant
                    i <= segs@.len(),
                    views(full@) == views(h.path@) + views(segs@).subrange(0, i as int),
                decreases segs.len() - i,
            {
                let ghost before = views(full@);
                let c = slice_chars(&segs[i], 0, segs[i].len());
                assert(segs@[i as int]@.subrange(0, segs@[i as int]@.len() as int) =~= segs@[i as int]@);
                full.push(c);
                assert(views(full@) =~= before.push(c@));
                i = i + 1;
                assert(views(full@) =~= views(h.path@) + views(segs@).subrange(0, i as int));
            }
            assert(views(segs@).subrange(0, segs@.len() as int) =~= views(segs@));
            let dot = vec!['.'];
            assert(dot@ =~= seq!['.']);
            let key_path_chars = join_chars(&full, &dot);
            let all = push_inline(&h.pending, &t, p);
            record_comment(&mut h.comments, &key_path_chars, &all);
            h.pending = no_lines();
            assert(h.model() == step(old(h).model(), line@));
        },
        None => {
            h.pending = no_lines();
            assert(h.model() == step(old(h).model(), line@));
        },
    }
}

/// Extracts the comments of a TOML document: for each header and each key,
/// the comment lines right above it (a blank line starts afresh), then the
/// comment that ends its line; lines inside multi-line strings are skipped.
pub fn extract_comments(content: &str) -> (r: CommentMap)
    ensures
        r.wf(),
        r.view() == comments_of(content@),
{
    let chars = chars_of(content);
    let lines = split_chars(&chars, '\n');
    let mut h = Harvester {
        comments: CommentMap::new(),
        pending: Vec::new(),
        path: Vec::new(),
        mode: StringState::Outside,
    };
    assert(views(h.pending@) =~= Seq::<Seq<char>>::empty());
    assert(views(h.path@) =~= Seq::<Seq<char>>::empty());
    assert(h.model() == initial_state());
    let mut i: usize = 0;
    while i < lines.len()
        invariant
            i <= lines@.len(),
            views(lines@) == split_on(content@, '\n'),
            h.comments.wf(),
            h.model() == run(initial_state(), views(lines@).subrange(0, i as int)),
        decreases lines.len() - i,
    {
        harvest_line(&mut h, &lines[i]);
        assert(views(lines@).subrange(0, i + 1).drop_last() =~= views(lines@).subrange(0, i as int));
        i = i + 1;
    }
    assert(views(lines@).subrange(0, lines@.len() as int) =~= views(lines@));
    h.comments
}

/// Harvesting depends on the text alone: two runs over one document give
/// equal maps.
pub proof fn lemma_harvest_repeatable(content: Seq<char>, first: Map<Seq<char>, Seq<char>>, second: Map<Seq<char>, Seq<char>>)
    requires
        first == comments_of(content),
        second == comments_of(content),
    ensures
        first == second,
{
}

/// A blank line empties the pending comment lines, so what was pending
/// before it reaches no header or key after it: two scans that differ only
/// in their pending lines agree on everything from the blank line on.
pub proof fn lemma_blank_line_clears(
    a: HarvestState,
    b: HarvestState,
    blank: Seq<char>,
    rest: Seq<Seq<char>>,
)
    requires
        trim(blank).len() == 0,
        a.comments == b.comments,
        a.path == b.path,
        a.mode == b.mode,
    ensures
        step(a, blank).pending.len() == 0,
        run(step(a, blank), rest) == run(step(b, blank), rest),
{
    assert(step(a, blank) == step(b, blank));
}

proof fn lemma_split_free(s: Seq<char>, c: char)
    requires
        forall|i: int| 0 <= i < s.len() ==> s[i] != c,
    ensures
        split_on(s, c) == seq![s],
    decreases s.len(),
{
    if s.len() > 0 {
        lemma_split_free(s.drop_last(), c);
        assert(s.drop_last().push(s.last()) =~= s);
        assert(s.last() != c);
        let prev = split_on(s.drop_last(), c);
        assert(prev.len() - 1 == 0);
        assert(prev.last() == s.drop_last());
        assert(split_on(s, c) == prev.update(prev.len() - 1, prev.last().push(s.last())));
        assert(seq![s.drop_last()].update(0, s.drop_last().push(s.last())) =~= seq![s]);
    } else {
        assert(s =~= Seq::<char>::empty());
    }
}

proof fn lemma_split_append(x: Seq<char>, c: char, y: Seq<char>)
    ensures
        split_on(x + seq![c] + y, c) == split_on(x, c) + split_on(y, c),
    decreases y.len(),
{
    let z = x + seq![c] + y;
    if y.len() == 0 {
        assert(z.drop_last() =~= x);
        assert(split_on(x, c).push(Seq::empty()) =~= split_on(x, c) + seq![Seq::<char>::empty()]);
    } else {
        assert(z.drop_last() =~= x + seq![c] + y.drop_last());
        lemma_split_append(x, c, y.drop_last());
        crate::text::lemma_split_nonempty(y.drop_last(), c);
        let a = split_on(x, c);
        let b = split_on(y.drop_last(), c);
        if y.last() == c {
            assert((a + b).push(Seq::empty()) =~= a + b.push(Seq::empty()));
        } else {
            assert((a + b).update((a + b).len() - 1, (a + b).last().push(y.last())) =~= a + b.update(
                b.len() - 1,
                b.last().push(y.last()),
            ));
        }
    }
}

proof fn lemma_split_join(p: Seq<Seq<char>>, c: char)
    requires
        p.len() >= 1,
        forall|i: int, j: int| 0 <= i < p.len() && 0 <= j < p[i].len() ==> p[i][j] != c,
    ensures
        split_on(join_with(p, seq![c]), c) == p,
    decreases p.len(),
{
    if p.len() == 1 {
        lemma_split_free(p[0], c);
        assert(seq![p[0]] =~= p);
    } else {
        lemma_split_join(p.drop_last(), c);
        lemma_split_free(p.last(), c);
        lemma_split_append(join_with(p.drop_last(), seq![c]), c, p.last());
        assert(p.drop_last() + seq![p.last()] =~= p);
    }
}

proof fn lemma_run_one(st: HarvestState, l: Seq<char>)
    ensures
        run(st, seq![l]) == step(st, l),
{
    assert(seq![l].drop_last() =~= Seq::<Seq<char>>::empty());
    assert(run(st, Seq::<Seq<char>>::empty()) == st);
}

proof fn lemma_run_append(st: HarvestState, a: Seq<Seq<char>>, b: Seq<Seq<char>>)
    ensures
        run(st, a + b) == run(run(st, a), b),
    decreases b.len(),
{
    if b.len() == 0 {
        assert(a + b =~= a);
    } else {
        lemma_run_append(st, a, b.drop_last());
        assert((a + b).drop_last() =~= a + b.drop_last());
    }
}

/// A line that holds a comment and nothing that opens a string.
pub open spec fn is_comment_line(l: Seq<char>) -> bool {
    &&& trim(l).len() > 0
    &&& trim(l)[0] == '#'
    &&& !contains_run(trim(l), triple_double())
    &&& !contains_run(trim(l), triple_single())
    &&& forall|j: int| 0 <= j < l.len() ==> l[j] != '\n'
}

proof fn lemma_comment_lines_pend(p: Seq<Seq<char>>)
    requires
        forall|i: int| 0 <= i < p.len() ==> is_comment_line(#[trigger] p[i]),
    ensures
        run(initial_state(), p).comments == Map::<Seq<char>, Seq<char>>::empty(),
        run(initial_state(), p).path == Seq::<Seq<char>>::empty(),
        run(initial_state(), p).mode == StringState::Outside,
    decreases p.len(),
{
    if p.len() > 0 {
        assert(is_comment_line(p[p.len() - 1]));
        lemma_comment_lines_pend(p.drop_last());
    }
}

/// Comment lines followed by a blank line leave no trace: the document that
/// starts with them harvests to the same map as the rest of it.
pub proof fn lemma_comments_then_blank_line(p: Seq<Seq<char>>, s: Seq<char>)
    requires
        forall|i: int| 0 <= i < p.len() ==> is_comment_line(#[trigger] p[i]),
    ensures
        comments_of(join_with(p, seq!['\n']) + seq!['\n', '\n'] + s) == comments_of(s),
{
    let j = join_with(p, seq!['\n']);
    let text = j + seq!['\n', '\n'] + s;
    assert(text =~= j + seq!['\n'] + (Seq::<char>::empty() + seq!['\n'] + s));
    lemma_split_append(j, '\n', Seq::<char>::empty() + seq!['\n'] + s);
    lemma_split_append(Seq::<char>::empty(), '\n', s);
    assert(split_on(Seq::<char>::empty(), '\n') == seq![Seq::<char>::empty()]);
    let blank = seq![Seq::<char>::empty()];
    assert(blank.drop_last() =~= Seq::<Seq<char>>::empty());
    assert(blank.last() == Seq::<char>::empty());
    let head = if p.len() == 0 {
        blank
    } else {
        lemma_split_join(p, '\n');
        p
    };
    if p.len() == 0 {
        assert(j =~= Seq::<char>::empty());
    }
    assert(split_on(text, '\n') =~= head + blank + split_on(s, '\n'));
    lemma_run_append(initial_state(), head + blank, split_on(s, '\n'));
    lemma_run_append(initial_state(), head, blank);
    assert(trim(Seq::<char>::empty()) =~= Seq::<char>::empty());
    if p.len() > 0 {
        lemma_comment_lines_pend(p);
    } else {
        lemma_run_one(initial_state(), Seq::empty());
    }
    lemma_run_one(run(initial_state(), head), Seq::empty());
    assert(run(run(initial_state(), head), blank) == initial_state());
}

} // verus!
