//! The chunker: splits arbitrary text into a sequence of chunks, each of
//! which encodes under a token budget derived from the model's context
//! limit.
//!
//! Chunk boundaries fall only on line breaks, so no chunk ever splits a
//! multi-byte code point or a line. A single line that exceeds the budget
//! on its own is still emitted as its own oversized chunk — degrade
//! gracefully rather than lose data — and each such chunk is reported as a
//! `ChunkOverflow` warning. Joining the chunks back together with one line
//! break between consecutive chunks reconstructs the input exactly.

use vstd::prelude::*;
use crate::errors::ChunkOverflow;
use crate::strutil::from_chars;
use crate::strutil::to_chars;

verus! {

/// Tokens held back from the model's context limit for the fixed framing
/// of a completion request: role markers, function declarations, and the
/// response budget.
pub const RESERVED_OVERHEAD: usize = 512;

/// The per-chunk token budget the request builder asks for.
pub const CHUNK_TOKEN_LIMIT: usize = 1024;

/// Splits text into token-bounded chunks.
pub struct Chunkifier {}

/// The token model: a chunk of `n` characters encodes to `ceil(n / 4)`
/// tokens. This is the usual four-characters-per-token estimate, applied
/// uniformly so that splitting is deterministic.
pub open spec fn spec_token_count(s: Seq<char>) -> nat {
    (s.len() + 3) / 4
}

/// The views of a sequence of character vectors.
pub open spec fn views_of(ls: Seq<Vec<char>>) -> Seq<Seq<char>> {
    ls.map_values(|l: Vec<char>| l@)
}

/// The views of a sequence of strings.
pub open spec fn string_views(ls: Seq<String>) -> Seq<Seq<char>> {
    ls.map_values(|l: String| l@)
}

/// Split on `'\n'`, accumulating the current (not yet terminated) line in
/// `cur`. Every input, the empty one included, yields at least one line;
/// the `'\n'` characters themselves are not kept.
pub open spec fn spec_split_lines_rec(s: Seq<char>, cur: Seq<char>) -> Seq<Seq<char>>
    decreases s.len(),
{
    if s.len() == 0 {
        seq![cur]
    } else if s[0] == '\n' {
        seq![cur] + spec_split_lines_rec(s.drop_first(), Seq::empty())
    } else {
        spec_split_lines_rec(s.drop_first(), cur.push(s[0]))
    }
}

/// The lines of a text, in input order.
pub open spec fn spec_split_lines(s: Seq<char>) -> Seq<Seq<char>> {
    spec_split_lines_rec(s, Seq::empty())
}

/// Join parts with one `'\n'` between consecutive parts.
pub open spec fn spec_join_lines(ls: Seq<Seq<char>>) -> Seq<char>
    decreases ls.len(),
{
    if ls.len() == 0 {
        Seq::empty()
    } else if ls.len() == 1 {
        ls[0]
    } else {
        ls[0] + seq!['\n'] + spec_join_lines(ls.drop_first())
    }
}

pub proof fn lemma_split_lines_rec_len(s: Seq<char>, cur: Seq<char>)
    ensures
        spec_split_lines_rec(s, cur).len() >= 1,
    decreases s.len(),
{
    if s.len() == 0 {
    } else if s[0] == '\n' {
        lemma_split_lines_rec_len(s.drop_first(), Seq::empty());
    } else {
        lemma_split_lines_rec_len(s.drop_first(), cur.push(s[0]));
    }
}

/// Joining with `'\n'` undoes splitting on `'\n'`: the accumulated prefix
/// `cur` comes back in front of the rest of the text.
proof fn lemma_join_split_rec(s: Seq<char>, cur: Seq<char>)
    ensures
        spec_join_lines(spec_split_lines_rec(s, cur)) == cur + s,
    decreases s.len(),
{
    if s.len() == 0 {
        assert(cur + s =~= cur);
    } else if s[0] == '\n' {
        let rest = spec_split_lines_rec(s.drop_first(), Seq::empty());
        lemma_split_lines_rec_len(s.drop_first(), Seq::empty());
        lemma_join_split_rec(s.drop_first(), Seq::empty());
        assert(Seq::empty() + s.drop_first() =~= s.drop_first());
        let whole = seq![cur] + rest;
        assert(whole.len() >= 2);
        assert(whole[0] == cur);
        assert(whole.drop_first() =~= rest);
        assert(cur + seq!['\n'] + s.drop_first() =~= cur + s);
    } else {
        lemma_join_split_rec(s.drop_first(), cur.push(s[0]));
        assert(cur.push(s[0]) + s.drop_first() =~= cur + s);
    }
}

/// Splitting a text on line breaks and joining the lines again gives the
/// text back: no character is lost or added.
pub proof fn lemma_join_split(s: Seq<char>)
    ensures
        spec_join_lines(spec_split_lines(s)) == s,
{
    lemma_join_split_rec(s, Seq::empty());
    assert(Seq::empty() + s =~= s);
}

/// Whether a text is free of line breaks.
pub open spec fn spec_no_newline(s: Seq<char>) -> bool {
    forall|i: int| 0 <= i < s.len() ==> s[i] != '\n'
}

/// Splitting walks through a break-free prefix, accumulating it.
proof fn lemma_split_rec_skips(x: Seq<char>, s: Seq<char>, cur: Seq<char>)
    requires
        spec_no_newline(x),
    ensures
        spec_split_lines_rec(x + s, cur) == spec_split_lines_rec(s, cur + x),
    decreases x.len(),
{
    if x.len() == 0 {
        assert(x + s =~= s);
        assert(cur + x =~= cur);
    } else {
        assert((x + s)[0] == x[0]);
        assert((x + s).drop_first() =~= x.drop_first() + s);
        assert(spec_no_newline(x.drop_first())) by {
            assert forall|i: int|
                0 <= i < x.drop_first().len() implies x.drop_first()[i] != '\n' by {
                assert(x.drop_first()[i] == x[i + 1]);
            }
        }
        lemma_split_rec_skips(x.drop_first(), s, cur.push(x[0]));
        assert(cur.push(x[0]) + x.drop_first() =~= cur + x);
    }
}

/// Splitting undoes joining whenever no part holds a line break of its
/// own: the parts come back exactly.
pub proof fn lemma_split_join(ls: Seq<Seq<char>>)
    requires
        ls.len() >= 1,
        forall|k: int| 0 <= k < ls.len() ==> spec_no_newline(#[trigger] ls[k]),
    ensures
        spec_split_lines(spec_join_lines(ls)) == ls,
    decreases ls.len(),
{
    if ls.len() == 1 {
        let x = ls[0];
        assert(x + Seq::<char>::empty() =~= x);
        lemma_split_rec_skips(x, Seq::empty(), Seq::empty());
        assert(Seq::<char>::empty() + x =~= x);
        assert(spec_split_lines_rec(Seq::<char>::empty(), x) == seq![x]);
        assert(ls =~= seq![x]);
    } else {
        let x = ls[0];
        let rest = ls.drop_first();
        let rest_join = spec_join_lines(rest);
        let tail = seq!['\n'] + rest_join;
        assert(spec_join_lines(ls) =~= x + tail);
        lemma_split_rec_skips(x, tail, Seq::empty());
        assert(Seq::<char>::empty() + x =~= x);
        assert(tail[0] == '\n');
        assert(tail.drop_first() =~= rest_join);
        assert(forall|k: int| 0 <= k < rest.len() ==> spec_no_newline(#[trigger] rest[k]));
        lemma_split_join(rest);
        assert(seq![x] + rest =~= ls);
    }
}

/// Joining two non-empty groups of parts joins their joins around one
/// `'\n'`.
pub proof fn lemma_join_concat(a: Seq<Seq<char>>, b: Seq<Seq<char>>)
    requires
        a.len() >= 1,
        b.len() >= 1,
    ensures
        spec_join_lines(a + b) == spec_join_lines(a) + seq!['\n'] + spec_join_lines(b),
    decreases a.len(),
{
    let whole = a + b;
    assert(whole.len() >= 2);
    assert(whole[0] == a[0]);
    if a.len() == 1 {
        assert(whole.drop_first() =~= b);
    } else {
        assert(whole.drop_first() =~= a.drop_first() + b);
        lemma_join_concat(a.drop_first(), b);
        assert(a[0] + seq!['\n'] + (spec_join_lines(a.drop_first()) + seq!['\n'] + spec_join_lines(
            b,
        )) =~= (a[0] + seq!['\n'] + spec_join_lines(a.drop_first())) + seq!['\n']
            + spec_join_lines(b));
    }
}

/// Greedy grouping of lines into chunks. `cur` is the chunk being grown:
/// a line is added to it while the grown chunk stays within the budget;
/// otherwise `cur` is emitted and the line starts the next chunk, or — if
/// the line alone exceeds the budget — the line is emitted whole as its
/// own oversized chunk.
pub open spec fn spec_chunks_rec(lines: Seq<Seq<char>>, cur: Option<Seq<char>>, budget: nat) -> Seq<
    Seq<char>,
>
    decreases lines.len(),
{
    if lines.len() == 0 {
        match cur {
            Option::None => Seq::empty(),
            Option::Some(c) => seq![c],
        }
    } else {
        let line = lines[0];
        let cand = match cur {
            Option::None => line,
            Option::Some(c) => c + seq!['\n'] + line,
        };
        if spec_token_count(cand) <= budget {
            spec_chunks_rec(lines.drop_first(), Option::Some(cand), budget)
        } else {
            let flushed = match cur {
                Option::None => Seq::<Seq<char>>::empty(),
                Option::Some(c) => seq![c],
            };
            if spec_token_count(line) <= budget {
                flushed + spec_chunks_rec(lines.drop_first(), Option::Some(line), budget)
            } else {
                flushed + seq![line] + spec_chunks_rec(lines.drop_first(), Option::None, budget)
            }
        }
    }
}

/// What the chunker produces for a text under a budget.
pub open spec fn spec_chunks(text: Seq<char>, budget: nat) -> Seq<Seq<char>> {
    spec_chunks_rec(spec_split_lines(text), Option::None, budget)
}

proof fn lemma_chunks_rec_some_len(lines: Seq<Seq<char>>, cur: Seq<char>, budget: nat)
    ensures
        spec_chunks_rec(lines, Option::Some(cur), budget).len() >= 1,
    decreases lines.len(),
{
    if lines.len() == 0 {
    } else {
        let line = lines[0];
        let cand = cur + seq!['\n'] + line;
        if spec_token_count(cand) <= budget {
            lemma_chunks_rec_some_len(lines.drop_first(), cand, budget);
        }
    }
}

proof fn lemma_chunks_rec_none_len(lines: Seq<Seq<char>>, budget: nat)
    requires
        lines.len() >= 1,
    ensures
        spec_chunks_rec(lines, Option::None, budget).len() >= 1,
{
    let line = lines[0];
    if spec_token_count(line) <= budget {
        lemma_chunks_rec_some_len(lines.drop_first(), line, budget);
    }
}

/// Joining the chunks reconstructs the joined lines, with the grown chunk
/// `cur` in front.
proof fn lemma_chunks_rec_join(lines: Seq<Seq<char>>, cur: Option<Seq<char>>, budget: nat)
    ensures
        spec_join_lines(spec_chunks_rec(lines, cur, budget)) == match cur {
            Option::None => spec_join_lines(lines),
            Option::Some(c) => if lines.len() == 0 {
                c
            } else {
                c + seq!['\n'] + spec_join_lines(lines)
            },
        },
    decreases lines.len(),
{
    if lines.len() == 0 {
    } else {
        let line = lines[0];
        let rest = lines.drop_first();
        let cand = match cur {
            Option::None => line,
            Option::Some(c) => c + seq!['\n'] + line,
        };
        if spec_token_count(cand) <= budget {
            lemma_chunks_rec_join(rest, Option::Some(cand), budget);
            if rest.len() > 0 {
                match cur {
                    Option::None => {},
                    Option::Some(c) => {
                        assert((c + seq!['\n'] + line) + seq!['\n'] + spec_join_lines(rest) =~= c
                            + seq!['\n'] + (line + seq!['\n'] + spec_join_lines(rest)));
                    },
                }
            }
        } else {
            if spec_token_count(line) <= budget {
                // The candidate only outgrows the budget when something was
                // already accumulated, so `cur` is `Some` here.
                let sub = spec_chunks_rec(rest, Option::Some(line), budget);
                lemma_chunks_rec_some_len(rest, line, budget);
                lemma_chunks_rec_join(rest, Option::Some(line), budget);
                match cur {
                    Option::None => {
                        assert(false);
                    },
                    Option::Some(c) => {
                        lemma_join_concat(seq![c], sub);
                        assert((seq![c] + sub)[0] == c);
                        if rest.len() > 0 {
                            assert(c + seq!['\n'] + (line + seq!['\n'] + spec_join_lines(rest)) =~=
                            c + seq!['\n'] + spec_join_lines(lines));
                        }
                    },
                }
            } else {
                let tail = spec_chunks_rec(rest, Option::None, budget);
                lemma_chunks_rec_join(rest, Option::None, budget);
                match cur {
                    Option::None => {
                        if rest.len() == 0 {
                            assert(Seq::<Seq<char>>::empty() + seq![line] + tail =~= seq![line]);
                        } else {
                            lemma_chunks_rec_none_len(rest, budget);
                            assert(Seq::<Seq<char>>::empty() + seq![line] + tail =~= seq![line]
                                + tail);
                            lemma_join_concat(seq![line], tail);
                        }
                    },
                    Option::Some(c) => {
                        let pair = seq![c, line];
                        assert(pair.len() == 2);
                        assert(pair[0] == c);
                        assert(pair.drop_first() =~= seq![line]);
                        assert(spec_join_lines(seq![line]) == line);
                        assert(spec_join_lines(pair) == c + seq!['\n'] + line);
                        if rest.len() == 0 {
                            assert(seq![c] + seq![line] + tail =~= seq![c, line]);
                        } else {
                            lemma_chunks_rec_none_len(rest, budget);
                            lemma_join_concat(seq![c, line], tail);
                            assert(seq![c] + seq![line] + tail =~= seq![c, line] + tail);
                            assert((c + seq!['\n'] + line) + seq!['\n'] + spec_join_lines(tail) =~=
                            c + seq!['\n'] + (line + seq!['\n'] + spec_join_lines(rest)));
                        }
                    },
                }
            }
        }
    }
}

/// Any text yields at least one chunk: nothing is ever dropped, not
/// even an empty input, which yields one empty chunk.
pub proof fn lemma_chunks_nonempty(text: Seq<char>, budget: nat)
    ensures
        spec_chunks(text, budget).len() >= 1,
{
    let lines = spec_split_lines(text);
    lemma_split_lines_rec_len(text, Seq::empty());
    lemma_chunks_rec_none_len(lines, budget);
}

/// Concatenating the chunks in order, with one line break between
/// consecutive chunks, reconstructs the input text exactly.
pub proof fn lemma_chunks_reconstruct(text: Seq<char>, budget: nat)
    ensures
        spec_join_lines(spec_chunks(text, budget)) == text,
{
    lemma_chunks_rec_join(spec_split_lines(text), Option::None, budget);
    lemma_join_split(text);
}

proof fn lemma_chunks_rec_budget(lines: Seq<Seq<char>>, cur: Option<Seq<char>>, budget: nat)
    requires
        forall|i: int| 0 <= i < lines.len() ==> spec_token_count(#[trigger] lines[i]) <= budget,
        cur matches Option::Some(c) ==> spec_token_count(c) <= budget,
    ensures
        forall|i: int|
            0 <= i < spec_chunks_rec(lines, cur, budget).len() ==> spec_token_count(
                #[trigger] spec_chunks_rec(lines, cur, budget)[i],
            ) <= budget,
    decreases lines.len(),
{
    let result = spec_chunks_rec(lines, cur, budget);
    if lines.len() == 0 {
    } else {
        let line = lines[0];
        let rest = lines.drop_first();
        assert forall|i: int| 0 <= i < rest.len() implies spec_token_count(#[trigger] rest[i])
            <= budget by {
            assert(rest[i] == lines[i + 1]);
        }
        let cand = match cur {
            Option::None => line,
            Option::Some(c) => c + seq!['\n'] + line,
        };
        if spec_token_count(cand) <= budget {
            lemma_chunks_rec_budget(rest, Option::Some(cand), budget);
            let sub = spec_chunks_rec(rest, Option::Some(cand), budget);
            assert forall|i: int| 0 <= i < result.len() implies spec_token_count(result[i])
                <= budget by {
                assert(result[i] == sub[i]);
            }
        } else if spec_token_count(line) <= budget {
            // The candidate only outgrows the budget when something was
            // already accumulated, so `cur` is `Some` here.
            lemma_chunks_rec_budget(rest, Option::Some(line), budget);
            let sub = spec_chunks_rec(rest, Option::Some(line), budget);
            let flushed = match cur {
                Option::None => Seq::<Seq<char>>::empty(),
                Option::Some(c) => seq![c],
            };
            assert forall|i: int| 0 <= i < result.len() implies spec_token_count(result[i])
                <= budget by {
                if i >= flushed.len() {
                    assert(result[i] == sub[i - flushed.len()]);
                }
            }
        } else {
            assert(spec_token_count(lines[0]) <= budget);
            assert(false);
        }
    }
}

/// When every line of the input fits the budget on its own, every chunk
/// the chunker emits fits the budget.
pub proof fn lemma_chunks_within_budget(text: Seq<char>, budget: nat)
    requires
        forall|i: int|
            0 <= i < spec_split_lines(text).len() ==> spec_token_count(
                #[trigger] spec_split_lines(text)[i],
            ) <= budget,
    ensures
        forall|i: int|
            0 <= i < spec_chunks(text, budget).len() ==> spec_token_count(
                #[trigger] spec_chunks(text, budget)[i],
            ) <= budget,
{
    lemma_chunks_rec_budget(spec_split_lines(text), Option::None, budget);
}

proof fn lemma_chunks_rec_safe(lines: Seq<Seq<char>>, cur: Option<Seq<char>>, budget: nat)
    requires
        cur matches Option::Some(c) ==> spec_token_count(c) <= budget,
    ensures
        forall|i: int|
            0 <= i < spec_chunks_rec(lines, cur, budget).len() ==> spec_token_count(
                #[trigger] spec_chunks_rec(lines, cur, budget)[i],
            ) <= budget || (exists|j: int|
                0 <= j < lines.len() && spec_chunks_rec(lines, cur, budget)[i] == lines[j]),
    decreases lines.len(),
{
    if lines.len() == 0 {
    } else {
        let line = lines[0];
        let rest = lines.drop_first();
        let cand = match cur {
            Option::None => line,
            Option::Some(c) => c + seq!['\n'] + line,
        };
        let result = spec_chunks_rec(lines, cur, budget);
        if spec_token_count(cand) <= budget {
            lemma_chunks_rec_safe(rest, Option::Some(cand), budget);
            let sub = spec_chunks_rec(rest, Option::Some(cand), budget);
            assert forall|i: int|
                0 <= i < result.len() && spec_token_count(result[i]) > budget implies (exists|
                j: int,
            | 0 <= j < lines.len() && result[i] == lines[j]) by {
                assert(result[i] == sub[i]);
                assert(spec_token_count(sub[i]) > budget);
                let j = choose|j: int| 0 <= j < rest.len() && sub[i] == rest[j];
                assert(rest[j] == lines[j + 1]);
                assert(result[i] == lines[j + 1]);
            }
        } else {
            let flushed = match cur {
                Option::None => Seq::<Seq<char>>::empty(),
                Option::Some(c) => seq![c],
            };
            if spec_token_count(line) <= budget {
                lemma_chunks_rec_safe(rest, Option::Some(line), budget);
                let sub = spec_chunks_rec(rest, Option::Some(line), budget);
                assert forall|i: int|
                    0 <= i < result.len() && spec_token_count(result[i]) > budget implies (exists|
                    j: int,
                | 0 <= j < lines.len() && result[i] == lines[j]) by {
                    let fi = flushed.len();
                    assert(i >= fi);
                    assert(result[i] == sub[i - fi]);
                    assert(spec_token_count(sub[i - fi]) > budget);
                    let j = choose|j: int| 0 <= j < rest.len() && sub[i - fi] == rest[j];
                    assert(rest[j] == lines[j + 1]);
                    assert(result[i] == lines[j + 1]);
                }
            } else {
                lemma_chunks_rec_safe(rest, Option::None, budget);
                let sub = spec_chunks_rec(rest, Option::None, budget);
                assert forall|i: int|
                    0 <= i < result.len() && spec_token_count(result[i]) > budget implies (exists|
                    j: int,
                | 0 <= j < lines.len() && result[i] == lines[j]) by {
                    let fi = flushed.len();
                    if i == fi {
                        assert(result[i] == lines[0]);
                    } else if i > fi {
                        assert(result[i] == sub[i - fi - 1]);
                        assert(spec_token_count(sub[i - fi - 1]) > budget);
                        let j = choose|j: int| 0 <= j < rest.len() && sub[i - fi - 1] == rest[j];
                        assert(rest[j] == lines[j + 1]);
                        assert(result[i] == lines[j + 1]);
                    } else {
                        assert(result[i] == flushed[i]);
                    }
                }
            }
        }
    }
}

/// A chunk that exceeds the budget is always one whole line of the input:
/// the chunker never grows a chunk past the budget, it only passes on a
/// line that was already too big by itself.
pub proof fn lemma_oversized_chunk_is_line(text: Seq<char>, budget: nat)
    ensures
        forall|i: int|
            0 <= i < spec_chunks(text, budget).len() ==> spec_token_count(
                #[trigger] spec_chunks(text, budget)[i],
            ) <= budget || (exists|j: int|
                0 <= j < spec_split_lines(text).len() && spec_chunks(text, budget)[i]
                    == spec_split_lines(text)[j]),
{
    lemma_chunks_rec_safe(spec_split_lines(text), Option::None, budget);
}

/// How many tokens a chunk encodes to under the token model.
pub fn token_count(s: &Vec<char>) -> (n: usize)
    ensures
        n == spec_token_count(s@),
{
    let len = s.len();
    if len % 4 == 0 {
        len / 4
    } else {
        len / 4 + 1
    }
}

/// The budget one chunk may occupy: the caller's per-chunk limit, capped
/// by what the model's context leaves after the fixed request framing.
pub open spec fn spec_effective_budget(max_tokens_per_chunk: usize, model_token_limit: usize) -> nat {
    let headroom: nat = if model_token_limit >= RESERVED_OVERHEAD {
        (model_token_limit - RESERVED_OVERHEAD) as nat
    } else {
        0
    };
    if max_tokens_per_chunk as nat <= headroom {
        max_tokens_per_chunk as nat
    } else {
        headroom
    }
}

fn effective_budget(max_tokens_per_chunk: usize, model_token_limit: usize) -> (b: usize)
    ensures
        b == spec_effective_budget(max_tokens_per_chunk, model_token_limit),
{
    let headroom = if model_token_limit >= RESERVED_OVERHEAD {
        model_token_limit - RESERVED_OVERHEAD
    } else {
        0
    };
    if max_tokens_per_chunk <= headroom {
        max_tokens_per_chunk
    } else {
        headroom
    }
}

/// The lines of `text`, split on `'\n'`.
pub fn split_lines(text: &Vec<char>) -> (lines: Vec<Vec<char>>)
    ensures
        views_of(lines@) == spec_split_lines(text@),
{
    let ghost whole: Seq<char> = text@;
    let n = text.len();
    let mut lines: Vec<Vec<char>> = Vec::new();
    let mut cur: Vec<char> = Vec::new();
    let mut i: usize = 0;
    proof {
        assert(views_of(lines@) =~= Seq::<Seq<char>>::empty());
        assert(whole.subrange(0, n as int) =~= whole);
        assert(Seq::<Seq<char>>::empty() + spec_split_lines_rec(whole, cur@)
            =~= spec_split_lines_rec(whole, cur@));
    }
    while i < n
        invariant
            i <= n,
            n == whole.len(),
            text@ == whole,
            spec_split_lines(whole) == views_of(lines@) + spec_split_lines_rec(
                whole.subrange(i as int, n as int),
                cur@,
            ),
        decreases n - i,
    {
        let ghost sub = whole.subrange(i as int, n as int);
        assert(sub[0] == whole[i as int]);
        assert(sub.drop_first() =~= whole.subrange(i as int + 1, n as int));
        let c = text[i];
        if c == '\n' {
            let finished = cur;
            cur = Vec::new();
            lines.push(finished);
            assert(views_of(lines@) =~= views_of(lines@.drop_last()) + seq![finished@]);
            assert(views_of(lines@.drop_last()) + (seq![finished@] + spec_split_lines_rec(
                sub.drop_first(),
                Seq::empty(),
            )) =~= (views_of(lines@.drop_last()) + seq![finished@]) + spec_split_lines_rec(
                sub.drop_first(),
                Seq::empty(),
            ));
        } else {
            cur.push(c);
        }
        i = i + 1;
    }
    assert(whole.subrange(n as int, n as int) =~= Seq::<char>::empty());
    let last = cur;
    lines.push(last);
    assert(views_of(lines@) =~= views_of(lines@.drop_last()) + seq![last@]);
    lines
}

/// `c + '\n' + line` as one vector.
fn glue(c: &Vec<char>, line: &Vec<char>) -> (r: Vec<char>)
    ensures
        r@ == c@ + seq!['\n'] + line@,
{
    let mut r = c.clone();
    r.push('\n');
    let mut tail = line.clone();
    r.append(&mut tail);
    assert(r@ =~= c@ + seq!['\n'] + line@);
    r
}

/// Group `text`'s lines greedily into chunks of at most `budget` tokens.
/// Besides the chunks it returns one `ChunkOverflow` warning for every
/// chunk that exceeds the budget (each such chunk is a single oversized
/// line, emitted whole).
pub fn split(text: &Vec<char>, budget: usize) -> (r: (Vec<Vec<char>>, Vec<ChunkOverflow>))
    ensures
        views_of(r.0@) == spec_chunks(text@, budget as nat),
        forall|k: int|
            0 <= k < r.1@.len() ==> {
                &&& (#[trigger] r.1@[k]).chunk_index < r.0@.len()
                &&& r.1@[k].token_count == spec_token_count(r.0@[r.1@[k].chunk_index as int]@)
                &&& r.1@[k].token_count > budget
            },
        forall|i: int|
            0 <= i < r.0@.len() ==> spec_token_count(#[trigger] r.0@[i]@) <= budget || (exists|
                k: int,
            | 0 <= k < r.1@.len() && #[trigger] r.1@[k].chunk_index == i),
{
    let lines = split_lines(text);
    let ghost all: Seq<Seq<char>> = views_of(lines@);
    let m = lines.len();
    let mut chunks: Vec<Vec<char>> = Vec::new();
    let mut warns: Vec<ChunkOverflow> = Vec::new();
    let mut cur: Vec<char> = Vec::new();
    let mut has_cur: bool = false;
    let mut j: usize = 0;
    proof {
        assert(views_of(chunks@) =~= Seq::<Seq<char>>::empty());
        assert(all.subrange(0, m as int) =~= all);
        assert(Seq::<Seq<char>>::empty() + spec_chunks_rec(all, Option::<Seq<char>>::None, budget as nat)
            =~= spec_chunks_rec(all, Option::<Seq<char>>::None, budget as nat));
    }
    while j < m
        invariant
            j <= m,
            m == lines@.len(),
            all == views_of(lines@),
            spec_chunks(text@, budget as nat) == views_of(chunks@) + spec_chunks_rec(
                all.subrange(j as int, m as int),
                if has_cur {
                    Option::Some(cur@)
                } else {
                    Option::<Seq<char>>::None
                },
                budget as nat,
            ),
            has_cur ==> spec_token_count(cur@) <= budget,
            forall|k: int|
                0 <= k < warns@.len() ==> {
                    &&& (#[trigger] warns@[k]).chunk_index < chunks@.len()
                    &&& warns@[k].token_count == spec_token_count(
                        chunks@[warns@[k].chunk_index as int]@,
                    )
                    &&& warns@[k].token_count > budget
                },
            forall|i: int|
                0 <= i < chunks@.len() ==> spec_token_count(#[trigger] chunks@[i]@) <= budget || (
                exists|k: int|
                    0 <= k < warns@.len() && #[trigger] warns@[k].chunk_index == i),
        decreases m - j,
    {
        let ghost rest = all.subrange(j as int, m as int);
        assert(rest[0] == all[j as int]);
        assert(all[j as int] == lines@[j as int]@);
        assert(rest.drop_first() =~= all.subrange(j as int + 1, m as int));
        let ghost views_old = views_of(chunks@);
        let ghost chunks_old = chunks@;
        let ghost warns_old = warns@;
        let ghost cur_old_view = if has_cur {
            Option::Some(cur@)
        } else {
            Option::<Seq<char>>::None
        };
        let line = &lines[j];
        let cand = if has_cur {
            glue(&cur, line)
        } else {
            line.clone()
        };
        let tc_cand = token_count(&cand);
        if tc_cand <= budget {
            cur = cand;
            has_cur = true;
        } else {
            let ghost flushed: Seq<Seq<char>> = match cur_old_view {
                Option::None => Seq::<Seq<char>>::empty(),
                Option::Some(c) => seq![c],
            };
            if has_cur {
                let finished = cur;
                cur = Vec::new();
                has_cur = false;
                chunks.push(finished);
                assert(views_of(chunks@) =~= views_old + seq![finished@]);
            }
            assert(views_of(chunks@) =~= views_old + flushed);
            let tc_line = token_count(line);
            if tc_line <= budget {
                cur = line.clone();
                has_cur = true;
                proof {
                    let x = spec_chunks_rec(rest.drop_first(), Option::Some(line@), budget as nat);
                    assert(spec_chunks_rec(rest, cur_old_view, budget as nat) == flushed + x);
                    assert(views_old + (flushed + x) =~= (views_old + flushed) + x);
                    assert forall|k: int|
                        0 <= k < warns@.len() implies {
                        &&& (#[trigger] warns@[k]).chunk_index < chunks@.len()
                        &&& warns@[k].token_count == spec_token_count(
                            chunks@[warns@[k].chunk_index as int]@,
                        )
                        &&& warns@[k].token_count > budget
                    } by {
                        assert(warns@[k] == warns_old[k]);
                        assert(chunks@[warns_old[k].chunk_index as int] == chunks_old[warns_old[k].chunk_index as int]);
                    }
                    assert forall|i: int|
                        0 <= i < chunks@.len() implies spec_token_count(#[trigger] chunks@[i]@)
                        <= budget || (exists|k: int|
                        0 <= k < warns@.len() && #[trigger] warns@[k].chunk_index == i) by {
                        if i < chunks_old.len() {
                            assert(chunks@[i] == chunks_old[i]);
                            if spec_token_count(chunks_old[i]@) > budget {
                                let k = choose|k: int|
                                    0 <= k < warns_old.len() && warns_old[k].chunk_index == i;
                                assert(warns@[k].chunk_index == i);
                            }
                        } else {
                            assert(chunks@[i]@ == cur_old_view->Some_0);
                        }
                    }
                }
            } else {
                warns.push(ChunkOverflow { chunk_index: chunks.len(), token_count: tc_line });
                let oversized = line.clone();
                chunks.push(oversized);
                proof {
                    let x = spec_chunks_rec(
                        rest.drop_first(),
                        Option::<Seq<char>>::None,
                        budget as nat,
                    );
                    assert(spec_chunks_rec(rest, cur_old_view, budget as nat) == flushed
                        + seq![line@] + x);
                    assert(views_of(chunks@) =~= (views_old + flushed) + seq![line@]);
                    assert(views_old + (flushed + seq![line@] + x) =~= views_of(chunks@) + x);
                    let kn = warns@.len() - 1;
                    assert(warns@[kn].chunk_index == chunks@.len() - 1);
                    assert(chunks@[chunks@.len() - 1]@ == line@);
                    assert forall|i: int|
                        0 <= i < chunks@.len() implies spec_token_count(#[trigger] chunks@[i]@)
                        <= budget || (exists|k: int|
                        0 <= k < warns@.len() && #[trigger] warns@[k].chunk_index == i) by {
                        if i == chunks@.len() - 1 {
                            assert(warns@[kn].chunk_index == i);
                        } else if i < chunks_old.len() {
                            assert(chunks@[i] == chunks_old[i]);
                            if spec_token_count(chunks_old[i]@) > budget {
                                let k = choose|k: int|
                                    0 <= k < warns_old.len() && warns_old[k].chunk_index == i;
                                assert(warns@[k] == warns_old[k]);
                                assert(warns@[k].chunk_index == i);
                            }
                        } else {
                            // the chunk flushed just before the oversized line
                            assert(chunks@[i]@ == cur_old_view->Some_0);
                        }
                    }
                    assert forall|k: int|
                        0 <= k < warns@.len() implies {
                        &&& (#[trigger] warns@[k]).chunk_index < chunks@.len()
                        &&& warns@[k].token_count == spec_token_count(
                            chunks@[warns@[k].chunk_index as int]@,
                        )
                        &&& warns@[k].token_count > budget
                    } by {
                        if k < warns_old.len() {
                            assert(warns@[k] == warns_old[k]);
                            assert(chunks@[warns_old[k].chunk_index as int] == chunks_old[warns_old[k].chunk_index as int]);
                        }
                    }
                }
            }
        }
        j = j + 1;
    }
    assert(all.subrange(m as int, m as int) =~= Seq::<Seq<char>>::empty());
    if has_cur {
        let ghost views_old = views_of(chunks@);
        let ghost chunks_old = chunks@;
        let ghost warns_old = warns@;
        let ghost closing = cur@;
        let finished = cur;
        chunks.push(finished);
        proof {
            assert(views_of(chunks@) =~= views_old + seq![finished@]);
            assert forall|k: int|
                0 <= k < warns@.len() implies {
                &&& (#[trigger] warns@[k]).chunk_index < chunks@.len()
                &&& warns@[k].token_count == spec_token_count(
                    chunks@[warns@[k].chunk_index as int]@,
                )
                &&& warns@[k].token_count > budget
            } by {
                assert(chunks@[warns_old[k].chunk_index as int] == chunks_old[warns_old[k].chunk_index as int]);
            }
            assert forall|i: int|
                0 <= i < chunks@.len() implies spec_token_count(#[trigger] chunks@[i]@) <= budget
                || (exists|k: int|
                0 <= k < warns@.len() && #[trigger] warns@[k].chunk_index == i) by {
                if i < chunks_old.len() {
                    assert(chunks@[i] == chunks_old[i]);
                    if spec_token_count(chunks_old[i]@) > budget {
                        let k = choose|k: int|
                            0 <= k < warns_old.len() && warns_old[k].chunk_index == i;
                        assert(warns@[k].chunk_index == i);
                    }
                } else {
                    assert(chunks@[i]@ == closing);
                }
            }
        }
    }
    let ghost final_chunks = chunks@;
    let ghost final_warns = warns@;
    let r = (chunks, warns);
    assert(r.0@ == final_chunks);
    assert(r.1@ == final_warns);
    assert forall|i: int|
        0 <= i < r.0@.len() implies spec_token_count(#[trigger] r.0@[i]@) <= budget || (exists|
            k: int,
        | 0 <= k < r.1@.len() && #[trigger] r.1@[k].chunk_index == i) by {
        assert(r.0@[i] == final_chunks[i]);
        if spec_token_count(final_chunks[i]@) > budget {
            let k = choose|k: int| 0 <= k < final_warns.len() && final_warns[k].chunk_index == i;
            assert(r.1@[k].chunk_index == i);
        }
    }
    r
}

impl Chunkifier {
    /// Split `content` into chunks, each encoding to at most
    /// `min(chunk_token_limit, model_token_limit - RESERVED_OVERHEAD)`
    /// tokens unless a single line alone exceeds that budget; every such
    /// oversized chunk is reported in the returned warnings. Chunk order
    /// equals input order, and re-running on the same input and limits
    /// yields the same sequence.
    pub fn parse_input(content: &String, chunk_token_limit: usize, model_token_limit: usize) -> (r:
        (Vec<String>, Vec<ChunkOverflow>))
        ensures
            string_views(r.0@) == spec_chunks(
                content@,
                spec_effective_budget(chunk_token_limit, model_token_limit),
            ),
            forall|k: int|
                0 <= k < r.1@.len() ==> {
                    &&& (#[trigger] r.1@[k]).chunk_index < r.0@.len()
                    &&& r.1@[k].token_count == spec_token_count(r.0@[r.1@[k].chunk_index as int]@)
                    &&& r.1@[k].token_count > spec_effective_budget(
                        chunk_token_limit,
                        model_token_limit,
                    )
                },
            forall|i: int|
                0 <= i < r.0@.len() ==> spec_token_count(#[trigger] r.0@[i]@)
                    <= spec_effective_budget(chunk_token_limit, model_token_limit) || (exists|
                    k: int,
                | 0 <= k < r.1@.len() && #[trigger] r.1@[k].chunk_index == i),
    {
        let budget = effective_budget(chunk_token_limit, model_token_limit);
        Chunkifier::chunkify_input(content, budget)
    }

    /// Split `input` into chunks of at most `tokens_per_chunk` tokens,
    /// with the same warning discipline as `parse_input`.
    pub fn chunkify_input(input: &String, tokens_per_chunk: usize) -> (r: (
        Vec<String>,
        Vec<ChunkOverflow>,
    ))
        ensures
            string_views(r.0@) == spec_chunks(input@, tokens_per_chunk as nat),
            forall|k: int|
                0 <= k < r.1@.len() ==> {
                    &&& (#[trigger] r.1@[k]).chunk_index < r.0@.len()
                    &&& r.1@[k].token_count == spec_token_count(r.0@[r.1@[k].chunk_index as int]@)
                    &&& r.1@[k].token_count > tokens_per_chunk
                },
            forall|i: int|
                0 <= i < r.0@.len() ==> spec_token_count(#[trigger] r.0@[i]@) <= tokens_per_chunk
                    || (exists|k: int|
                    0 <= k < r.1@.len() && #[trigger] r.1@[k].chunk_index == i),
    {
        let chars = to_chars(input.as_str());
        let (raw, warns) = split(&chars, tokens_per_chunk);
        let ghost rawv = views_of(raw@);
        let mut out: Vec<String> = Vec::new();
        let mut i: usize = 0;
        assert(string_views(out@) =~= rawv.subrange(0, 0));
        while i < raw.len()
            invariant
                i <= raw@.len(),
                rawv == views_of(raw@),
                string_views(out@) == rawv.subrange(0, i as int),
            decreases raw@.len() - i,
        {
            let ghost prev = out@;
            let s = from_chars(&raw[i]);
            out.push(s);
            proof {
                assert(out@ == prev.push(s));
                assert(string_views(out@) =~= string_views(prev).push(s@));
                assert(rawv[i as int] == raw@[i as int]@);
                assert(string_views(prev).push(s@) =~= rawv.subrange(0, i as int + 1));
            }
            i = i + 1;
        }
        proof {
            assert(string_views(out@) =~= rawv);
            assert(out@.len() == raw@.len());
            assert forall|k: int|
                0 <= k < warns@.len() implies {
                &&& (#[trigger] warns@[k]).chunk_index < out@.len()
                &&& warns@[k].token_count == spec_token_count(out@[warns@[k].chunk_index as int]@)
                &&& warns@[k].token_count > tokens_per_chunk
            } by {
                let idx = warns@[k].chunk_index as int;
                assert(out@[idx]@ == string_views(out@)[idx]);
                assert(raw@[idx]@ == views_of(raw@)[idx]);
            }
        }
        let ghost final_out = out@;
        let ghost final_warns = warns@;
        let ghost final_raw = raw@;
        let r = (out, warns);
        assert(r.0@ == final_out);
        assert(r.1@ == final_warns);
        assert forall|i: int|
            0 <= i < r.0@.len() implies spec_token_count(#[trigger] r.0@[i]@) <= tokens_per_chunk
            || (exists|k: int|
            0 <= k < r.1@.len() && #[trigger] r.1@[k].chunk_index == i) by {
            assert(r.0@[i] == final_out[i]);
            assert(final_out[i]@ == string_views(final_out)[i]);
            assert(final_raw[i]@ == views_of(final_raw)[i]);
            if spec_token_count(final_out[i]@) > tokens_per_chunk {
                assert(spec_token_count(final_raw[i]@) > tokens_per_chunk);
                let k = choose|k: int|
                    0 <= k < final_warns.len() && final_warns[k].chunk_index == i;
                assert(r.1@[k].chunk_index == i);
            }
        }
        r
    }
}

} // verus!
