//! Error recording and diagnostic resolution.
//!
//! The parser records `(kind, token index)` pairs without halting. After
//! parsing, the resolver turns each recorded error back into a line of
//! source text and a column, by replaying the lexer over the source and
//! counting consumed characters; tokens carry no positions of their own.
use vstd::prelude::*;
use vstd::string::*;
use crate::chars::skippable_ws;
use crate::token::{Token, TokenM, FixedToken, is_newline_token};
use crate::lexer::{
    skip_ws_end, extract_token, lemma_skip_ws_end_bounds, lemma_extract_token_bounds, skip_ws_from,
    extract_core,
};

verus! {

/// One recorded error: its kind and the absolute index, in the original
/// token stream, just past the token where it was detected.
#[derive(Clone, Copy, Debug)]
pub struct RecordedError<Kind> {
    pub token_index: usize,
    pub kind: Kind,
}

/// The ghost model of a resolved error context.
#[verifier::ext_equal]
pub struct ErrorContextM<Kind> {
    pub kind: Kind,
    pub line: Seq<char>,
    pub column: int,
}

/// A resolved error context: the error's kind, the source line it lies
/// on, and its column within that line (widened by three extra columns
/// for every tab before it).
pub struct ErrorContext<Kind> {
    kind: Kind,
    line: String,
    column: usize,
}

impl<Kind> View for ErrorContext<Kind> {
    type V = ErrorContextM<Kind>;

    closed spec fn view(&self) -> ErrorContextM<Kind> {
        ErrorContextM { kind: self.kind, line: self.line@, column: self.column as int }
    }
}

impl<Kind> DeepView for ErrorContext<Kind> {
    type V = ErrorContextM<Kind>;

    open spec fn deep_view(&self) -> ErrorContextM<Kind> {
        self.view()
    }
}

impl<Kind: Copy> ErrorContext<Kind> {
    pub fn kind(&self) -> (r: Kind)
        ensures
            r == self@.kind,
    {
        self.kind
    }

    pub fn column(&self) -> (r: usize)
        ensures
            r as int == self@.column,
    {
        self.column
    }

    pub fn line(&self) -> (r: &str)
        ensures
            r@ == self@.line,
    {
        self.line.as_str()
    }
}

/// The number of tab characters in `s` between positions `a` and `b`.
pub open spec fn count_tabs(s: Seq<char>, a: int, b: int) -> int
    decreases b - a,
    when a <= b
{
    if a >= b {
        0
    } else {
        (if s[a] == '\t' {
            1int
        } else {
            0int
        }) + count_tabs(s, a + 1, b)
    }
}

proof fn lemma_count_tabs_nonneg(s: Seq<char>, a: int, b: int)
    requires
        a <= b,
    ensures
        0 <= count_tabs(s, a, b) <= b - a,
    decreases b - a,
{
    if a < b {
        lemma_count_tabs_nonneg(s, a + 1, b);
    }
}

proof fn lemma_count_tabs_shift(s: Seq<char>, a: int, b: int, k: int)
    requires
        0 <= a,
        0 <= k,
        a + k <= b <= s.len(),
    ensures
        count_tabs(s.subrange(a, b), k, b - a) == count_tabs(s, a + k, b),
    decreases b - a - k,
{
    if a + k < b {
        lemma_count_tabs_shift(s, a, b, k + 1);
        assert(s.subrange(a, b)[k] == s[a + k]);
    }
}

/// The column reported for a token starting `token_index` characters
/// into its line: each tab among those characters widens the column by
/// three extra positions, to approximate visual alignment.
pub fn token_index_to_column(line: &str, token_index: usize) -> (r: usize)
    requires
        token_index <= line@.len(),
        line@.len() <= usize::MAX / 4,
    ensures
        r as int == token_index + 3 * count_tabs(line@, 0, token_index as int),
{
    proof {
        lemma_count_tabs_nonneg(line@, 0, token_index as int);
    }
    let mut column = token_index;
    let mut i: usize = 0;
    while i < token_index
        invariant
            i <= token_index <= line@.len(),
            line@.len() <= usize::MAX / 4,
            column as int == token_index + 3 * count_tabs(line@, 0, i as int),
        decreases token_index - i,
    {
        proof {
            lemma_count_tabs_nonneg(line@, 0, i as int);
            lemma_count_tabs_nonneg(line@, i as int, token_index as int);
            assert(count_tabs(line@, 0, i + 1) == count_tabs(line@, 0, i as int) + (
            if line@[i as int] == '\t' {
                1int
            } else {
                0int
            })) by {
                lemma_count_tabs_split(line@, 0, i as int, i + 1);
                assert(count_tabs(line@, i + 1, i + 1) == 0);
                assert(count_tabs(line@, i as int, i + 1) == (if line@[i as int] == '\t' {
                    1int
                } else {
                    0int
                }));
            }
        }
        if line.get_char(i) == '\t' {
            column += 3;
        }
        i += 1;
    }
    column
}

proof fn lemma_count_tabs_split(s: Seq<char>, a: int, m: int, b: int)
    requires
        a <= m <= b,
    ensures
        count_tabs(s, a, b) == count_tabs(s, a, m) + count_tabs(s, m, b),
    decreases m - a,
{
    if a < m {
        lemma_count_tabs_split(s, a + 1, m, b);
    }
}

/// The number of characters skipped as whitespace from `pos` on.
pub fn skip_whitespace(s: &str, pos: usize) -> (r: usize)
    requires
        pos <= s@.len(),
    ensures
        pos + r == skip_ws_end(s@, pos as int),
{
    let j = skip_ws_from(s, pos);
    j - pos
}

// ------------------------------------------------------------------
// Ghost model of the resolver
// ------------------------------------------------------------------

/// Replay state: the position reached in the source, the start of the
/// current line, the contexts waiting for their line's end, and the
/// finished contexts.
#[verifier::ext_equal]
pub struct ResolveStateM<Kind> {
    pub pos: int,
    pub line_start: int,
    pub partials: Seq<(Kind, int)>,
    pub acc: Seq<ErrorContextM<Kind>>,
}

pub open spec fn flush_partials<Kind>(ps: Seq<(Kind, int)>, line: Seq<char>) -> Seq<
    ErrorContextM<Kind>,
> {
    ps.map_values(|p: (Kind, int)| ErrorContextM { kind: p.0, line: line, column: p.1 })
}

/// Replaying one token: skipped whitespace is counted into the line;
/// crossing a newline flushes the pending contexts with the finished
/// line's text and starts a new line.
pub open spec fn advance_one<Kind>(s: Seq<char>, st: ResolveStateM<Kind>) -> ResolveStateM<Kind> {
    let j = skip_ws_end(s, st.pos);
    if j >= s.len() {
        ResolveStateM { pos: s.len() as int, ..st }
    } else {
        let (t, k) = extract_token(s, j);
        if is_newline_token(t) {
            ResolveStateM {
                pos: k,
                line_start: k,
                partials: Seq::empty(),
                acc: st.acc + flush_partials(st.partials, s.subrange(st.line_start, j)),
            }
        } else {
            ResolveStateM { pos: k, ..st }
        }
    }
}

pub open spec fn advance_many<Kind>(s: Seq<char>, st: ResolveStateM<Kind>, n: nat) -> ResolveStateM<
    Kind,
>
    decreases n,
{
    if n == 0 {
        st
    } else {
        advance_many(s, advance_one(s, st), (n - 1) as nat)
    }
}

/// The column of the token starting at position `j` of the line that
/// starts at `line_start`.
pub open spec fn column_at(s: Seq<char>, line_start: int, j: int) -> int {
    (j - line_start) + 3 * count_tabs(s, line_start, j)
}

/// Recording one error: the column is taken before its token is
/// consumed; the token is then consumed without a newline check.
pub open spec fn record_one<Kind>(s: Seq<char>, st: ResolveStateM<Kind>, kind: Kind) -> ResolveStateM<
    Kind,
> {
    let j = skip_ws_end(s, st.pos);
    let col = column_at(s, st.line_start, j);
    let st1 = ResolveStateM { partials: st.partials.push((kind, col)), ..st };
    if j >= s.len() {
        ResolveStateM { pos: s.len() as int, ..st1 }
    } else {
        let (t, k) = extract_token(s, j);
        ResolveStateM { pos: k, ..st1 }
    }
}

/// After the last error, the line in progress is completed up to its
/// newline (or to the end of input) and the pending contexts flushed.
pub open spec fn finish_line<Kind>(s: Seq<char>, st: ResolveStateM<Kind>) -> Seq<
    ErrorContextM<Kind>,
>
    decreases s.len() - st.pos,
    when 0 <= st.pos <= s.len()
    via finish_line_dec::<Kind>
{
    let j = skip_ws_end(s, st.pos);
    if j >= s.len() {
        st.acc + flush_partials(st.partials, s.subrange(st.line_start, s.len() as int))
    } else {
        let (t, k) = extract_token(s, j);
        if is_newline_token(t) {
            st.acc + flush_partials(st.partials, s.subrange(st.line_start, j))
        } else if j < k <= s.len() {
            finish_line(s, ResolveStateM { pos: k, ..st })
        } else {
            st.acc
        }
    }
}

#[via_fn]
proof fn finish_line_dec<Kind>(s: Seq<char>, st: ResolveStateM<Kind>) {
    lemma_skip_ws_end_bounds(s, st.pos);
}

pub open spec fn finish<Kind>(s: Seq<char>, st: ResolveStateM<Kind>) -> Seq<ErrorContextM<Kind>> {
    if st.partials.len() == 0 {
        st.acc
    } else {
        finish_line(s, st)
    }
}

pub open spec fn resolve_loop<Kind>(
    s: Seq<char>,
    errs: Seq<RecordedError<Kind>>,
    prev: int,
    st: ResolveStateM<Kind>,
) -> Seq<ErrorContextM<Kind>>
    decreases errs.len(),
{
    if errs.len() == 0 {
        finish(s, st)
    } else {
        let e = errs[0];
        let steps: nat = if e.token_index - prev - 1 >= 0 {
            (e.token_index - prev - 1) as nat
        } else {
            0
        };
        let st1 = advance_many(s, st, steps);
        let st2 = record_one(s, st1, e.kind);
        resolve_loop(s, errs.drop_first(), e.token_index as int, st2)
    }
}

pub open spec fn initial_resolve_state<Kind>() -> ResolveStateM<Kind> {
    ResolveStateM { pos: 0, line_start: 0, partials: Seq::empty(), acc: Seq::empty() }
}

/// The resolved contexts of a recorded error list against its source: a
/// pure function of the two.
pub open spec fn resolve_all<Kind>(s: Seq<char>, errs: Seq<RecordedError<Kind>>) -> Seq<
    ErrorContextM<Kind>,
> {
    resolve_loop(s, errs, 0, initial_resolve_state())
}


/// Replaying one token keeps every pending and finished context and
/// stays within the source.
proof fn lemma_advance_one_len<Kind>(s: Seq<char>, st: ResolveStateM<Kind>)
    requires
        0 <= st.pos <= s.len(),
    ensures
        advance_one(s, st).acc.len() + advance_one(s, st).partials.len() == st.acc.len()
            + st.partials.len(),
        0 <= advance_one(s, st).pos <= s.len(),
{
    lemma_skip_ws_end_bounds(s, st.pos);
    let j = skip_ws_end(s, st.pos);
    if j < s.len() {
        lemma_extract_token_bounds(s, j);
    }
}

proof fn lemma_advance_many_len<Kind>(s: Seq<char>, st: ResolveStateM<Kind>, n: nat)
    requires
        0 <= st.pos <= s.len(),
    ensures
        advance_many(s, st, n).acc.len() + advance_many(s, st, n).partials.len() == st.acc.len()
            + st.partials.len(),
        0 <= advance_many(s, st, n).pos <= s.len(),
    decreases n,
{
    if n > 0 {
        lemma_advance_one_len(s, st);
        lemma_advance_many_len(s, advance_one(s, st), (n - 1) as nat);
    }
}

/// Recording one error adds exactly one pending context.
proof fn lemma_record_one_len<Kind>(s: Seq<char>, st: ResolveStateM<Kind>, kind: Kind)
    requires
        0 <= st.pos <= s.len(),
    ensures
        record_one(s, st, kind).acc.len() + record_one(s, st, kind).partials.len() == st.acc.len()
            + st.partials.len() + 1,
        0 <= record_one(s, st, kind).pos <= s.len(),
{
    lemma_skip_ws_end_bounds(s, st.pos);
    let j = skip_ws_end(s, st.pos);
    if j < s.len() {
        lemma_extract_token_bounds(s, j);
    }
}

/// Completing the line flushes every pending context, exactly once.
proof fn lemma_finish_line_len<Kind>(s: Seq<char>, st: ResolveStateM<Kind>)
    requires
        0 <= st.pos <= s.len(),
    ensures
        finish_line(s, st).len() == st.acc.len() + st.partials.len(),
    decreases s.len() - st.pos,
{
    lemma_skip_ws_end_bounds(s, st.pos);
    let j = skip_ws_end(s, st.pos);
    if j < s.len() {
        lemma_extract_token_bounds(s, j);
        let (t, k) = extract_token(s, j);
        if !is_newline_token(t) {
            lemma_finish_line_len(s, ResolveStateM { pos: k, ..st });
        }
    }
}

proof fn lemma_resolve_loop_len<Kind>(
    s: Seq<char>,
    errs: Seq<RecordedError<Kind>>,
    prev: int,
    st: ResolveStateM<Kind>,
)
    requires
        0 <= st.pos <= s.len(),
    ensures
        resolve_loop(s, errs, prev, st).len() == st.acc.len() + st.partials.len() + errs.len(),
    decreases errs.len(),
{
    if errs.len() == 0 {
        if st.partials.len() > 0 {
            lemma_finish_line_len(s, st);
        }
    } else {
        let e = errs[0];
        let steps: nat = if e.token_index - prev - 1 >= 0 {
            (e.token_index - prev - 1) as nat
        } else {
            0
        };
        lemma_advance_many_len(s, st, steps);
        let st1 = advance_many(s, st, steps);
        lemma_record_one_len(s, st1, e.kind);
        lemma_resolve_loop_len(s, errs.drop_first(), e.token_index as int, record_one(s, st1, e.kind));
    }
}

/// Resolution yields exactly one context per recorded error.
pub proof fn lemma_resolve_all_len<Kind>(s: Seq<char>, errs: Seq<RecordedError<Kind>>)
    ensures
        resolve_all(s, errs).len() == errs.len(),
{
    lemma_resolve_loop_len(s, errs, 0, initial_resolve_state::<Kind>());
}

/// Errors as the parser hands them over: indices strictly ascending,
/// each just past a consumed token, so at least one.
pub open spec fn strictly_ascending<Kind>(errs: Seq<RecordedError<Kind>>) -> bool {
    &&& forall|i: int|
        0 <= i < errs.len() - 1 ==> (#[trigger] errs[i].token_index) < errs[i + 1].token_index
    &&& errs.len() > 0 ==> errs[0].token_index >= 1
}

/// Resolving the same source and error list twice yields identical
/// context sequences: resolution is a pure function of its inputs.
pub proof fn lemma_error_context_resolution_idempotent<Kind>(
    s: Seq<char>,
    errs: Seq<RecordedError<Kind>>,
    r1: Seq<ErrorContextM<Kind>>,
    r2: Seq<ErrorContextM<Kind>>,
)
    requires
        r1 == resolve_all(s, errs),
        r2 == resolve_all(s, errs),
    ensures
        r1 == r2,
{
}

// ------------------------------------------------------------------
// Executable resolver
// ------------------------------------------------------------------

struct Partial<Kind> {
    kind: Kind,
    column: usize,
}

impl<Kind> View for Partial<Kind> {
    type V = (Kind, int);

    closed spec fn view(&self) -> (Kind, int) {
        (self.kind, self.column as int)
    }
}

struct Resolver<Kind> {
    pos: usize,
    line_start: usize,
    partials: Vec<Partial<Kind>>,
    acc: Vec<ErrorContext<Kind>>,
}

impl<Kind: Copy> Resolver<Kind> {
    spec fn model(&self) -> ResolveStateM<Kind> {
        ResolveStateM {
            pos: self.pos as int,
            line_start: self.line_start as int,
            partials: Seq::new(self.partials@.len(), |i: int| self.partials@[i]@),
            acc: self.acc.deep_view(),
        }
    }

    spec fn wf(&self, s: Seq<char>) -> bool {
        self.line_start <= self.pos <= s.len()
    }

    /// Flushes the pending contexts with the line `[line_start, end)`.
    fn flush_line(&mut self, s: &str, end: usize)
        requires
            old(self).wf(s@),
            old(self).line_start <= end <= s@.len(),
        ensures
            final(self).pos == old(self).pos,
            final(self).line_start == old(self).line_start,
            final(self).wf(s@),
            final(self).partials@.len() == 0,
            final(self).acc.deep_view() == old(self).acc.deep_view() + flush_partials(
                old(self).model().partials,
                s@.subrange(old(self).line_start as int, end as int),
            ),
    {
        let ghost line = s@.subrange(self.line_start as int, end as int);
        let ghost ps = self.model().partials;
        let ghost acc0 = self.acc.deep_view();
        let mut i: usize = 0;
        while i < self.partials.len()
            invariant
                i <= self.partials@.len(),
                self.pos == old(self).pos,
                self.line_start == old(self).line_start,
                self.partials == old(self).partials,
                ps == old(self).model().partials,
                acc0 == old(self).acc.deep_view(),
                old(self).line_start <= end <= s@.len(),
                line == s@.subrange(old(self).line_start as int, end as int),
                self.acc.deep_view() == acc0 + flush_partials(ps.take(i as int), line),
            decreases self.partials@.len() - i,
        {
            let p = &self.partials[i];
            let text = s.substring_char(self.line_start, end).to_owned();
            proof {
                assert(text@ =~= line);
            }
            let ghost accb = self.acc.deep_view();
            self.acc.push(ErrorContext { kind: p.kind, line: text, column: p.column });
            proof {
                assert(self.acc.deep_view() =~= accb.push(
                    ErrorContextM { kind: ps[i as int].0, line: line, column: ps[i as int].1 },
                ));
                assert(flush_partials(ps.take(i + 1), line) =~= flush_partials(
                    ps.take(i as int),
                    line,
                ).push(ErrorContextM { kind: ps[i as int].0, line: line, column: ps[i as int].1 }));
                assert(self.acc.deep_view() =~= acc0 + flush_partials(ps.take(i + 1), line));
            }
            i += 1;
        }
        self.partials = Vec::new();
        proof {
            assert(ps.take(ps.len() as int) =~= ps);
            assert(self.model().partials =~= Seq::<(Kind, int)>::empty());
        }
    }

    /// Replays one token, flushing the line on a newline.
    fn advance_one(&mut self, s: &str, n: usize)
        requires
            old(self).wf(s@),
            n == s@.len(),
        ensures
            final(self).wf(s@),
            final(self).model() == advance_one(s@, old(self).model()),
            final(self).pos >= old(self).pos,
    {
        let j = skip_ws_from(s, self.pos);
        proof {
            lemma_skip_ws_end_bounds(s@, self.pos as int);
        }
        if j >= n {
            self.pos = n;
            proof {
                assert(self.model() =~= advance_one(s@, old(self).model()));
            }
        } else {
            let (t, k) = extract_core(s, j, n);
            let is_nl = match t {
                Token::FixedToken(FixedToken::Newline) => true,
                _ => false,
            };
            if is_nl {
                self.flush_line(s, j);
                self.pos = k;
                self.line_start = k;
                proof {
                    assert(self.model() =~= advance_one(s@, old(self).model()));
                }
            } else {
                self.pos = k;
                proof {
                    assert(self.model() =~= advance_one(s@, old(self).model()));
                }
            }
        }
    }

    /// Records one error at the current position: column first, then the
    /// offending token is consumed.
    fn record_at(&mut self, s: &str, n: usize, kind: Kind)
        requires
            old(self).wf(s@),
            n == s@.len(),
            n <= usize::MAX / 4,
        ensures
            final(self).wf(s@),
            final(self).model() == record_one(s@, old(self).model(), kind),
            final(self).pos >= old(self).pos,
    {
        let j = skip_ws_from(s, self.pos);
        proof {
            lemma_skip_ws_end_bounds(s@, self.pos as int);
        }
        let prefix = s.substring_char(self.line_start, j);
        proof {
            assert(prefix@ =~= s@.subrange(self.line_start as int, j as int));
            lemma_count_tabs_shift(s@, self.line_start as int, j as int, 0);
        }
        let column = token_index_to_column(prefix, j - self.line_start);
        self.partials.push(Partial { kind, column });
        if j >= n {
            self.pos = n;
            proof {
                assert(self.model().partials =~= record_one(s@, old(self).model(), kind).partials);
                assert(self.model() =~= record_one(s@, old(self).model(), kind));
            }
        } else {
            let (t, k) = extract_core(s, j, n);
            self.pos = k;
            proof {
                assert(self.model().partials =~= record_one(s@, old(self).model(), kind).partials);
                assert(self.model() =~= record_one(s@, old(self).model(), kind));
            }
        }
    }

}

/// Completes the line in progress and flushes what is pending.
fn finish_resolver<Kind: Copy>(rsv: Resolver<Kind>, s: &str, n: usize) -> (r: Vec<
    ErrorContext<Kind>,
>)
    requires
        rsv.wf(s@),
        n == s@.len(),
    ensures
        r.deep_view() == finish(s@, rsv.model()),
{
    let mut slf = rsv;
    let ghost st0 = slf.model();
        if slf.partials.len() == 0 {
            proof {
                assert(slf.model().partials.len() == 0);
            }
            return slf.acc;
        }
        loop
            invariant_except_break
                slf.partials@.len() > 0,
                finish(s@, st0) == finish_line(s@, slf.model()),
            invariant
                slf.wf(s@),
                n == s@.len(),
            ensures
                slf.acc.deep_view() == finish(s@, st0),
            decreases n - slf.pos,
        {
            let j = skip_ws_from(s, slf.pos);
            proof {
                lemma_skip_ws_end_bounds(s@, slf.pos as int);
            }
            if j >= n {
                slf.flush_line(s, n);
                proof {
                    assert(slf.acc.deep_view() == finish(s@, st0));
                }
                break;
            }
            let (t, k) = extract_core(s, j, n);
            let is_nl = match t {
                Token::FixedToken(FixedToken::Newline) => true,
                _ => false,
            };
            if is_nl {
                slf.flush_line(s, j);
                proof {
                    assert(slf.acc.deep_view() == finish(s@, st0));
                }
                break;
            }
            proof {
                let m0 = slf.model();
                let m1 = ResolveStateM { pos: k as int, ..m0 };
                assert(finish_line(s@, m0) == finish_line(s@, m1));
            }
            slf.pos = k;
        }
    slf.acc
}

fn is_strictly_ascending<Kind: Copy>(errors: &Vec<RecordedError<Kind>>) -> (r: bool)
    ensures
        r == strictly_ascending(errors@),
{
    if errors.len() == 0 {
        return true;
    }
    if errors[0].token_index < 1 {
        return false;
    }
    let mut i: usize = 0;
    while i < errors.len() - 1
        invariant
            errors@.len() >= 1,
            errors@[0].token_index >= 1,
            i <= errors@.len(),
            forall|m: int|
                0 <= m < i ==> (#[trigger] errors@[m].token_index) < errors@[m + 1].token_index,
        decreases errors@.len() - i,
    {
        if errors[i].token_index >= errors[i + 1].token_index {
            return false;
        }
        i += 1;
    }
    true
}

/// Resolves recorded errors, sorted by strictly ascending token index,
/// against the source text that produced the tokens: the human-readable
/// line and column of each.
pub fn get_error_contexts<Kind: Copy>(input: &str, errors: &Vec<RecordedError<Kind>>) -> (r: Vec<
    ErrorContext<Kind>,
>)
    requires
        strictly_ascending(errors@),
        input@.len() <= usize::MAX / 4,
    ensures
        r.deep_view() == resolve_all(input@, errors@),
{
    let n = input.unicode_len();
    let mut rsv: Resolver<Kind> = Resolver {
        pos: 0,
        line_start: 0,
        partials: Vec::new(),
        acc: Vec::new(),
    };
    proof {
        assert(rsv.model() =~= initial_resolve_state::<Kind>());
        assert(errors@.skip(0) =~= errors@);
    }
    let mut prev: usize = 0;
    let mut ei: usize = 0;
    while ei < errors.len()
        invariant
            ei <= errors@.len(),
            n == input@.len(),
            n <= usize::MAX / 4,
            rsv.wf(input@),
            strictly_ascending(errors@),
            ei > 0 ==> prev == errors@[ei - 1].token_index,
            ei == 0 ==> prev == 0,
            ei < errors@.len() ==> prev < errors@[ei as int].token_index,
            resolve_all(input@, errors@) == resolve_loop(
                input@,
                errors@.skip(ei as int),
                prev as int,
                rsv.model(),
            ),
        decreases errors@.len() - ei,
    {
        let e_idx = errors[ei].token_index;
        let e_kind = errors[ei].kind;
        let steps = e_idx - prev - 1;
        let ghost st_before = rsv.model();
        let mut m: usize = 0;
        while m < steps
            invariant
                m <= steps,
                n == input@.len(),
                n <= usize::MAX / 4,
                rsv.wf(input@),
                advance_many(input@, st_before, steps as nat) == advance_many(
                    input@,
                    rsv.model(),
                    (steps - m) as nat,
                ),
            decreases steps - m,
        {
            proof {
                assert(advance_many(input@, rsv.model(), (steps - m) as nat) == advance_many(
                    input@,
                    advance_one(input@, rsv.model()),
                    (steps - m - 1) as nat,
                ));
            }
            rsv.advance_one(input, n);
            m += 1;
        }
        proof {
            assert(rsv.model() == advance_many(input@, st_before, steps as nat));
        }
        rsv.record_at(input, n, e_kind);
        proof {
            assert(errors@.skip(ei as int)[0] == errors@[ei as int]);
            assert(errors@.skip(ei as int).drop_first() =~= errors@.skip(ei + 1));
        }
        prev = e_idx;
        ei += 1;
    }
    proof {
        assert(errors@.skip(ei as int) =~= Seq::<RecordedError<Kind>>::empty());
    }
    finish_resolver(rsv, input, n)
}

// ------------------------------------------------------------------
// Error collections
// ------------------------------------------------------------------

/// The ordered, immutable collection of errors one parse recorded.
pub struct Errors<Kind> {
    errors: Vec<RecordedError<Kind>>,
}

impl<Kind> View for Errors<Kind> {
    type V = Seq<RecordedError<Kind>>;

    closed spec fn view(&self) -> Seq<RecordedError<Kind>> {
        self.errors@
    }
}

impl<Kind: Copy> Errors<Kind> {
    pub fn new(errors: Vec<RecordedError<Kind>>) -> (r: Errors<Kind>)
        ensures
            r@ == errors@,
    {
        Errors { errors }
    }

    pub fn has_errors(&self) -> (r: bool)
        ensures
            r == (self@.len() > 0),
    {
        self.errors.len() > 0
    }

    /// The recorded kinds, in parse order.
    pub fn error_kinds(&self) -> (r: Vec<Kind>)
        ensures
            r@.len() == self@.len(),
            forall|i: int| 0 <= i < self@.len() ==> r@[i] == self@[i].kind,
    {
        let mut kinds: Vec<Kind> = Vec::new();
        let mut i: usize = 0;
        while i < self.errors.len()
            invariant
                i <= self@.len(),
                kinds@.len() == i,
                forall|m: int| 0 <= m < i ==> kinds@[m] == self@[m].kind,
            decreases self@.len() - i,
        {
            kinds.push(self.errors[i].kind);
            i += 1;
        }
        kinds
    }

    /// The recorded errors themselves, in parse order.
    pub fn recorded(&self) -> (r: &Vec<RecordedError<Kind>>)
        ensures
            r@ == self@,
    {
        &self.errors
    }

    /// Resolves the errors against the source text. Parse order makes
    /// the indices strictly ascending; a list that is not so ordered
    /// resolves to nothing.
    pub fn error_contexts(&self, input: &str) -> (r: Vec<ErrorContext<Kind>>)
        requires
            input@.len() <= usize::MAX / 4,
        ensures
            strictly_ascending(self@) ==> r.deep_view() == resolve_all(input@, self@),
            !strictly_ascending(self@) ==> r.deep_view() =~= Seq::<ErrorContextM<Kind>>::empty(),
    {
        if is_strictly_ascending(&self.errors) {
            get_error_contexts(input, &self.errors)
        } else {
            let r: Vec<ErrorContext<Kind>> = Vec::new();
            proof {
                assert(r.deep_view() =~= Seq::<ErrorContextM<Kind>>::empty());
            }
            r
        }
    }
}


// ------------------------------------------------------------------
// The error recorder: the token stream with error bookkeeping
// ------------------------------------------------------------------

/// The absolute indices of the non-newline tokens, in order. The parser
/// never sees newline tokens; these indices anchor its errors back to
/// the original stream.
pub open spec fn nn_indices(ts: Seq<TokenM>) -> Seq<int>
    decreases ts.len(),
{
    if ts.len() == 0 {
        seq![]
    } else {
        let rest = nn_indices(ts.drop_last());
        if is_newline_token(ts.last()) {
            rest
        } else {
            rest.push(ts.len() - 1)
        }
    }
}

pub open spec fn select_tokens(ts: Seq<TokenM>, idxs: Seq<int>) -> Seq<TokenM> {
    Seq::new(idxs.len(), |m: int| ts[idxs[m]])
}

/// The constant part of the parser's state: the filtered tokens, their
/// original indices, and the original stream's length.
#[verifier::ext_equal]
pub struct TokInfo {
    pub toks: Seq<TokenM>,
    pub origs: Seq<int>,
    pub olen: int,
}

/// The changing part: the position in the filtered tokens and the
/// errors recorded so far.
#[verifier::ext_equal]
pub struct PSt<Kind> {
    pub pos: int,
    pub errs: Seq<RecordedError<Kind>>,
}

pub open spec fn make_tinfo(ts: Seq<TokenM>) -> TokInfo {
    TokInfo { toks: select_tokens(ts, nn_indices(ts)), origs: nn_indices(ts), olen: ts.len() as int }
}

/// The token index recorded for an error: just past the last consumed
/// token, in the original stream.
pub open spec fn sp_cur_index(ti: TokInfo, st_pos: int) -> int {
    if st_pos == 0 {
        0
    } else {
        ti.origs[st_pos - 1] + 1
    }
}

pub open spec fn sp_record<Kind>(ti: TokInfo, st: PSt<Kind>, kind: Kind) -> PSt<Kind> {
    PSt {
        pos: st.pos,
        errs: st.errs.push(
            RecordedError { token_index: sp_cur_index(ti, st.pos) as usize, kind },
        ),
    }
}

proof fn lemma_nn_indices_bounds(ts: Seq<TokenM>)
    ensures
        forall|m: int| 0 <= m < nn_indices(ts).len() ==> 0 <= #[trigger] nn_indices(ts)[m]
            < ts.len(),
    decreases ts.len(),
{
    if ts.len() > 0 {
        lemma_nn_indices_bounds(ts.drop_last());
        let rest = nn_indices(ts.drop_last());
        if is_newline_token(ts.last()) {
            assert(nn_indices(ts) == rest);
        } else {
            assert(nn_indices(ts) == rest.push(ts.len() - 1));
            assert forall|m: int| 0 <= m < nn_indices(ts).len() implies 0 <= #[trigger] nn_indices(
                ts,
            )[m] < ts.len() by {
                if m < rest.len() {
                    assert(nn_indices(ts)[m] == rest[m]);
                } else {
                    assert(nn_indices(ts)[m] == ts.len() - 1);
                }
            }
        }
    }
}

/// Consumes tokens against an original count, recording errors as
/// `(kind, token index)` pairs without halting consumption. Newlines are
/// filtered out of what the consumer sees.
pub struct ErrorRecorder<Kind> {
    tokens: Vec<Token>,
    filt: Vec<usize>,
    pos: usize,
    errors: Vec<RecordedError<Kind>>,
}

impl<Kind: Copy> ErrorRecorder<Kind> {
    pub closed spec fn tinfo(&self) -> TokInfo {
        TokInfo {
            toks: Seq::new(self.filt@.len(), |m: int| self.tokens.deep_view()[self.filt@[m] as int]),
            origs: Seq::new(self.filt@.len(), |m: int| self.filt@[m] as int),
            olen: self.tokens@.len() as int,
        }
    }

    pub closed spec fn pst(&self) -> PSt<Kind> {
        PSt { pos: self.pos as int, errs: self.errors@ }
    }

    pub closed spec fn wf(&self) -> bool {
        &&& self.pos <= self.filt@.len()
        &&& forall|m: int| 0 <= m < self.filt@.len() ==> (#[trigger] self.filt@[m]) < self.tokens@.len()
    }

    pub open spec fn toks_len(&self) -> int {
        self.tinfo().toks.len() as int
    }

    pub fn new(tokens: Vec<Token>) -> (r: ErrorRecorder<Kind>)
        ensures
            r.wf(),
            r.tinfo() == make_tinfo(tokens.deep_view()),
            r.pst() == (PSt::<Kind> { pos: 0, errs: Seq::empty() }),
    {
        let ghost ts = tokens.deep_view();
        let mut filt: Vec<usize> = Vec::new();
        let n = tokens.len();
        let mut i: usize = 0;
        while i < n
            invariant
                i <= n,
                n == tokens@.len(),
                ts == tokens.deep_view(),
                filt@.len() == nn_indices(ts.take(i as int)).len(),
                forall|m: int| 0 <= m < filt@.len() ==> (#[trigger] filt@[m]) as int == nn_indices(
                    ts.take(i as int),
                )[m],
                forall|m: int| 0 <= m < filt@.len() ==> (#[trigger] filt@[m]) < i,
            decreases n - i,
        {
            proof {
                assert(ts.take(i + 1).drop_last() =~= ts.take(i as int));
                assert(ts.take(i + 1).last() == ts[i as int]);
                assert(tokens.deep_view()[i as int] == tokens@[i as int].deep_view());
            }
            let is_nl = match &tokens[i] {
                Token::FixedToken(FixedToken::Newline) => true,
                _ => false,
            };
            if !is_nl {
                filt.push(i);
            }
            i += 1;
        }
        proof {
            assert(ts.take(n as int) =~= ts);
        }
        let r = ErrorRecorder { tokens, filt, pos: 0, errors: Vec::new() };
        proof {
            lemma_nn_indices_bounds(ts);
            assert(r.tinfo().origs =~= nn_indices(ts));
            assert(r.tinfo().toks =~= select_tokens(ts, nn_indices(ts)));
            assert(r.tinfo() =~= make_tinfo(ts));
        }
        r
    }

    /// The next unconsumed token, if any.
    pub fn peek(&self) -> (r: Option<&Token>)
        requires
            self.wf(),
        ensures
            match r {
                Some(t) => self.pst().pos < self.tinfo().toks.len() && t.deep_view()
                    == self.tinfo().toks[self.pst().pos],
                None => self.pst().pos >= self.tinfo().toks.len(),
            },
    {
        if self.pos < self.filt.len() {
            Some(&self.tokens[self.filt[self.pos]])
        } else {
            None
        }
    }

    /// Consumes the next token.
    pub fn advance(&mut self)
        requires
            old(self).wf(),
            old(self).pst().pos < old(self).tinfo().toks.len(),
        ensures
            final(self).wf(),
            final(self).tinfo() == old(self).tinfo(),
            final(self).pst() == (PSt::<Kind> {
                pos: old(self).pst().pos + 1,
                errs: old(self).pst().errs,
            }),
    {
        let n = self.filt.len();
        assert(self.pos < n);
        self.pos = self.pos + 1;
        proof {
            assert(final(self).tinfo() =~= old(self).tinfo());
        }
    }

    /// Records an error at the current consumption position.
    pub fn record(&mut self, kind: Kind)
        requires
            old(self).wf(),
        ensures
            final(self).wf(),
            final(self).tinfo() == old(self).tinfo(),
            final(self).pst() == sp_record(old(self).tinfo(), old(self).pst(), kind),
    {
        let total = self.tokens.len();
        let token_index = if self.pos == 0 {
            0
        } else {
            self.filt[self.pos - 1] + 1
        };
        self.errors.push(RecordedError { token_index, kind });
        proof {
            assert(final(self).tinfo() =~= old(self).tinfo());
            assert(final(self).pst() =~= sp_record(old(self).tinfo(), old(self).pst(), kind));
        }
    }

    /// The current position in the filtered token stream.
    pub fn position(&self) -> (r: usize)
        ensures
            r as int == self.pst().pos,
    {
        self.pos
    }

    /// A well-formed recorder's position stays within its tokens.
    pub proof fn lemma_bounds(&self)
        requires
            self.wf(),
        ensures
            0 <= self.pst().pos <= self.tinfo().toks.len(),
            self.tinfo().toks.len() == self.tinfo().origs.len(),
    {
    }

    /// Consumes the recorder, returning what it recorded.
    pub fn errors(self) -> (r: Errors<Kind>)
        ensures
            r@ == self.pst().errs,
    {
        Errors::new(self.errors)
    }
}

} // verus!
