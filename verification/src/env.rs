//! What scripts can do with the context, and how the outcome of a script
//! becomes a notebook step.
//!
//! The script engine itself lives outside this library; the functions it
//! exposes to scripts (`ctx_len`, `ctx_slice`, `ctx_grep`) and the assembly
//! of a cell's output after a script has run are here.

use vstd::prelude::*;
use vstd::string::StringSliceAdditionalSpecFns;
use vstd::utf8::*;

use crate::protocol::{
    bytes_text, lemma_split_text, lemma_suffix_boundary, split_text, StepResult, StepResultView,
};
use crate::text::{chars_of, ends_with, string_of, sub_chars};

verus! {

broadcast use vstd::utf8::group_utf8_lib;

// ---------------------------------------------------------------------------
// ctx_len, ctx_slice
// ---------------------------------------------------------------------------

/// `ctx_len()`: the byte length of the context.
pub fn ctx_len(ctx: &str) -> (n: i64)
    ensures
        n == ctx.spec_bytes().len() as i64,
{
    let len = ctx.as_bytes().len();
    len as i64
}

/// A script's byte offset clamped to the context: a negative offset reads
/// as a huge unsigned one and so clamps to the end.
pub open spec fn clamp_offset(len: nat, offset: i64) -> int {
    let u = offset as usize;
    if u < len {
        u as int
    } else {
        len as int
    }
}

/// Whether `ctx_slice(start, end)` can cut the context: the clamped range
/// is ordered and both ends lie on char boundaries.
pub open spec fn slice_ok(bytes: Seq<u8>, start: i64, end: i64) -> bool {
    let s = clamp_offset(bytes.len(), start);
    let e = clamp_offset(bytes.len(), end);
    s <= e && is_char_boundary(bytes, s) && is_char_boundary(bytes, e)
}

/// Whether `ctx_slice(ctx, start, end)` can be called; where it cannot, a
/// script that asks for that slice fails.
pub fn ctx_slice_ok(ctx: &str, start: i64, end: i64) -> (b: bool)
    ensures
        b == slice_ok(ctx.spec_bytes(), start, end),
{
    let len = ctx.as_bytes().len();
    let s = if (start as usize) < len {
        start as usize
    } else {
        len
    };
    let e = if (end as usize) < len {
        end as usize
    } else {
        len
    };
    s <= e && ctx.is_char_boundary(s) && ctx.is_char_boundary(e)
}

/// `ctx_slice(start, end)`: the text of the context's bytes between the two
/// offsets, each clamped to the context's length.
pub fn ctx_slice(ctx: &str, start: i64, end: i64) -> (out: String)
    requires
        slice_ok(ctx.spec_bytes(), start, end),
    ensures
        out@ == bytes_text(
            ctx.spec_bytes(),
            clamp_offset(ctx.spec_bytes().len(), start),
            clamp_offset(ctx.spec_bytes().len(), end),
        ),
{
    let ghost b = ctx.spec_bytes();
    let len = ctx.as_bytes().len();
    let s = if (start as usize) < len {
        start as usize
    } else {
        len
    };
    let e = if (end as usize) < len {
        end as usize
    } else {
        len
    };
    let (_, rest) = split_text(ctx, s);
    proof {
        lemma_split_text(b, s as int);
        lemma_suffix_boundary(b, s as int, e - s);
        assert(rest.spec_bytes() == b.subrange(s as int, b.len() as int));
    }
    let (mid, _) = split_text(rest, e - s);
    proof {
        assert(b.subrange(s as int, b.len() as int).subrange(0, e - s) =~= b.subrange(
            s as int,
            e as int,
        ));
    }
    String::from_str(mid)
}

/// Law: an end offset at or past the end of the context is clamped, not
/// refused. For any context and any start offset that lies on a char
/// boundary within it, `ctx_slice(start, end)` with `end` at or beyond the
/// length is accepted and gives the whole rest of the context from `start`:
/// the text before `start` followed by the slice is the context itself.
pub proof fn lemma_slice_to_end_is_rest(bytes: Seq<u8>, start: i64, end: i64)
    requires
        valid_utf8(bytes),
        (start as usize) <= bytes.len(),
        is_char_boundary(bytes, (start as usize) as int),
        (end as usize) >= bytes.len(),
    ensures
        slice_ok(bytes, start, end),
        clamp_offset(bytes.len(), start) == (start as usize) as int,
        clamp_offset(bytes.len(), end) == bytes.len(),
        decode_utf8(bytes) == bytes_text(bytes, 0, (start as usize) as int) + bytes_text(
            bytes,
            clamp_offset(bytes.len(), start),
            clamp_offset(bytes.len(), end),
        ),
{
    is_char_boundary_start_end_of_seq(bytes);
    lemma_split_text(bytes, (start as usize) as int);
}

/// Law: `ctx_slice` refuses only a range that would split a character or
/// whose clamped ends are out of order. Any two offsets whose clamped values
/// are ordered char boundaries of the context are accepted, whatever their
/// raw values: an offset past the end acts as the end itself.
pub proof fn lemma_slice_refused_only_inside_chars(bytes: Seq<u8>, start: i64, end: i64)
    requires
        valid_utf8(bytes),
    ensures
        ({
            let s = if (start as usize) < bytes.len() {
                (start as usize) as int
            } else {
                bytes.len() as int
            };
            let e = if (end as usize) < bytes.len() {
                (end as usize) as int
            } else {
                bytes.len() as int
            };
            s <= e && is_char_boundary(bytes, s) && is_char_boundary(bytes, e) ==> slice_ok(
                bytes,
                start,
                end,
            )
        }),
{
    is_char_boundary_start_end_of_seq(bytes);
}

// ---------------------------------------------------------------------------
// Lines
// ---------------------------------------------------------------------------

/// Index of the first `'\n'` in `s`, or its length when there is none.
pub open spec fn first_newline(s: Seq<char>) -> nat
    decreases s.len(),
{
    if s.len() == 0 {
        0
    } else if s[0] == '\n' {
        0
    } else {
        1 + first_newline(s.drop_first())
    }
}

/// A line without the `'\r'` of a `"\r\n"` ending.
pub open spec fn strip_cr(line: Seq<char>) -> Seq<char> {
    if line.len() > 0 && line.last() == '\r' {
        line.drop_last()
    } else {
        line
    }
}

/// The lines of `s` (`str::lines`): split at each `'\n'`, a `'\r'` right
/// before it dropped, the final line ending optional.
pub open spec fn lines(s: Seq<char>) -> Seq<Seq<char>>
    decreases s.len(),
{
    if s.len() == 0 {
        Seq::empty()
    } else {
        let k = first_newline(s);
        if k >= s.len() {
            seq![s]
        } else {
            seq![strip_cr(s.take(k as int))] + lines(s.skip(k + 1int))
        }
    }
}

/// `parts` joined with `'\n'` between them.
pub open spec fn join_lines(parts: Seq<Seq<char>>) -> Seq<char>
    decreases parts.len(),
{
    if parts.len() == 0 {
        Seq::empty()
    } else if parts.len() == 1 {
        parts[0]
    } else {
        join_lines(parts.drop_last()) + seq!['\n'] + parts.last()
    }
}

proof fn lemma_newline_literal()
    ensures
        "\n"@ == seq!['\n'],
        "\r"@ == seq!['\r'],
{
    reveal_strlit("\n");
    reveal_strlit("\r");
    assert("\n"@ =~= seq!['\n']);
    assert("\r"@ =~= seq!['\r']);
}

proof fn lemma_first_newline_bound(s: Seq<char>)
    ensures
        first_newline(s) <= s.len(),
        first_newline(s) < s.len() ==> s[first_newline(s) as int] == '\n',
        forall|i: int| 0 <= i < first_newline(s) ==> s[i] != '\n',
    decreases s.len(),
{
    if s.len() > 0 && s[0] != '\n' {
        lemma_first_newline_bound(s.drop_first());
        assert forall|i: int| 0 <= i < first_newline(s) implies s[i] != '\n' by {
            if i > 0 {
                assert(s[i] == s.drop_first()[i - 1]);
            }
        }
    }
}

/// `s` without one final `'\n'`, where it ends with one.
pub open spec fn without_final_newline(s: Seq<char>) -> Seq<char> {
    if s.len() > 0 && s.last() == '\n' {
        s.drop_last()
    } else {
        s
    }
}

/// Joining a first part onto the rest puts one `'\n'` between them.
proof fn lemma_join_cons(a: Seq<char>, rest: Seq<Seq<char>>)
    ensures
        join_lines(seq![a] + rest) == if rest.len() == 0 {
            a
        } else {
            a + seq!['\n'] + join_lines(rest)
        },
    decreases rest.len(),
{
    let all = seq![a] + rest;
    if rest.len() == 0 {
        assert(all =~= seq![a]);
    } else if rest.len() == 1 {
        assert(all.drop_last() =~= seq![a]);
        assert(join_lines(seq![a]) == a);
        assert(all.last() == rest[0]);
        assert(join_lines(rest) == rest[0]);
    } else {
        assert(all.drop_last() =~= seq![a] + rest.drop_last());
        assert(all.last() == rest.last());
        lemma_join_cons(a, rest.drop_last());
        assert(a + seq!['\n'] + join_lines(rest.drop_last()) + seq!['\n'] + rest.last() =~= a
            + seq!['\n'] + (join_lines(rest.drop_last()) + seq!['\n'] + rest.last()));
    }
}

/// Law: on text without `'\r'`, the lines hold every character of the text
/// but the line breaks: joined back with `'\n'` they give the text itself,
/// less a final `'\n'`. A last line without a line break is a line like any
/// other, and no line holds a `'\n'`.
pub proof fn lemma_lines_rejoin(s: Seq<char>)
    requires
        forall|i: int| 0 <= i < s.len() ==> s[i] != '\r',
    ensures
        join_lines(lines(s)) == without_final_newline(s),
        forall|i: int, j: int|
            0 <= i < lines(s).len() && 0 <= j < lines(s)[i].len() ==> lines(s)[i][j] != '\n',
        (lines(s).len() == 0) == (s.len() == 0),
    decreases s.len(),
{
    if s.len() > 0 {
        let k = first_newline(s);
        lemma_first_newline_bound(s);
        if k < s.len() {
            let head = s.take(k as int);
            let tail = s.skip(k + 1int);
            assert forall|i: int| 0 <= i < tail.len() implies tail[i] != '\r' by {
                assert(tail[i] == s[i + k + 1]);
            }
            lemma_lines_rejoin(tail);
            assert(strip_cr(head) == head) by {
                if head.len() > 0 {
                    assert(head.last() == s[k - 1]);
                }
            }
            lemma_join_cons(head, lines(tail));
            assert(lines(s) == seq![head] + lines(tail));
            if tail.len() == 0 {
                assert(s =~= head.push('\n'));
            } else {
                assert(s =~= head + seq!['\n'] + tail);
                assert(tail.last() == s.last());
                assert(without_final_newline(s) =~= head + seq!['\n'] + without_final_newline(
                    tail,
                ));
            }
            assert forall|i: int, j: int|
                0 <= i < lines(s).len() && 0 <= j < lines(s)[i].len() implies lines(
                s,
            )[i][j] != '\n' by {
                if i > 0 {
                    assert(lines(s)[i] == lines(tail)[i - 1]);
                }
            }
        } else {
            assert(s.last() == s[s.len() - 1]);
        }
    }
}

// ---------------------------------------------------------------------------
// ctx_grep
// ---------------------------------------------------------------------------

/// `regex::Regex::new`: `Ok` when `pattern` compiles, otherwise `Err` with the
/// error's message. A function of the pattern alone.
pub uninterp spec fn regex_compile(pattern: Seq<char>) -> Result<(), Seq<char>>;

/// `regex::Regex::is_match`: whether the regex compiled from `pattern`
/// matches somewhere in `haystack`.
pub uninterp spec fn regex_is_match(pattern: Seq<char>, haystack: Seq<char>) -> bool;

/// `regex::Regex`, carried opaque.
#[verifier::external_type_specification]
#[verifier::external_body]
pub struct ExRegex(regex::Regex);

/// A regex together with the pattern it was compiled from. Only
/// `compile_pattern` builds one, so `regex` is always `pattern` compiled.
pub struct CompiledPattern {
    pattern: String,
    regex: regex::Regex,
}

impl CompiledPattern {
    /// The pattern the regex was compiled from.
    pub closed spec fn pattern(&self) -> Seq<char> {
        self.pattern@
    }
}

/// Compiles `pattern` with `regex::Regex::new`. Trusted: the result is `Ok`
/// exactly when `regex_compile` names it so, and the error's message
/// (its `Display`) is the one that `regex_compile` names; which patterns
/// compile is not stated.
#[verifier::external_body]
fn compile_pattern(pattern: &str) -> (r: Result<CompiledPattern, String>)
    ensures
        match r {
            Ok(c) => regex_compile(pattern@) == Ok::<(), Seq<char>>(()) && c.pattern() == pattern@,
            Err(m) => regex_compile(pattern@) == Err::<(), Seq<char>>(m@),
        },
{
    match regex::Regex::new(pattern) {
        Ok(regex) => Ok(CompiledPattern { pattern: pattern.to_string(), regex }),
        Err(e) => Err(e.to_string()),
    }
}

/// `regex::Regex::is_match` on the compiled pattern. Trusted: the result is
/// `regex_is_match` of the pattern and the haystack; which lines match is
/// not stated.
#[verifier::external_body]
fn pattern_is_match(p: &CompiledPattern, haystack: &str) -> (b: bool)
    ensures
        b == regex_is_match(p.pattern(), haystack@),
{
    p.regex.is_match(haystack)
}

/// The lines of `ls` that the regex compiled from `pattern` matches, in order.
pub open spec fn matching_lines(ls: Seq<Seq<char>>, pattern: Seq<char>) -> Seq<Seq<char>>
    decreases ls.len(),
{
    if ls.len() == 0 {
        Seq::empty()
    } else {
        let rest = matching_lines(ls.drop_last(), pattern);
        if regex_is_match(pattern, ls.last()) {
            rest.push(ls.last())
        } else {
            rest
        }
    }
}

/// What `ctx_grep(pattern)` returns for the context `ctx`: the matching
/// lines joined with `'\n'`, or a message when the pattern does not compile.
pub open spec fn spec_ctx_grep(ctx: Seq<char>, pattern: Seq<char>) -> Seq<char> {
    match regex_compile(pattern) {
        Ok(_) => join_lines(matching_lines(lines(ctx), pattern)),
        Err(m) => "regex error: "@ + m,
    }
}

proof fn lemma_matching_append(a: Seq<Seq<char>>, line: Seq<char>, pattern: Seq<char>)
    ensures
        matching_lines(a.push(line), pattern) == if regex_is_match(pattern, line) {
            matching_lines(a, pattern).push(line)
        } else {
            matching_lines(a, pattern)
        },
{
    assert(a.push(line).drop_last() =~= a);
}

proof fn lemma_join_push(parts: Seq<Seq<char>>, line: Seq<char>)
    ensures
        join_lines(parts.push(line)) == if parts.len() == 0 {
            line
        } else {
            join_lines(parts) + seq!['\n'] + line
        },
{
    assert(parts.push(line).drop_last() =~= parts);
}

/// A regex that matches every line keeps every line; one that matches none
/// keeps none.
proof fn lemma_matching_all_or_none(ls: Seq<Seq<char>>, pattern: Seq<char>)
    ensures
        (forall|l: Seq<char>| #[trigger] regex_is_match(pattern, l)) ==> matching_lines(ls, pattern)
            == ls,
        (forall|l: Seq<char>| !#[trigger] regex_is_match(pattern, l)) ==> matching_lines(
            ls,
            pattern,
        ).len() == 0,
    decreases ls.len(),
{
    if ls.len() > 0 {
        lemma_matching_all_or_none(ls.drop_last(), pattern);
        assert(ls.drop_last().push(ls.last()) =~= ls);
    }
}

/// Law: every line of the context is searched, the last one too when no
/// line break ends it. With a pattern that compiles and matches every line,
/// `ctx_grep` gives back the whole context (less a final `'\n'`), for any
/// context without `'\r'`; with one that matches no line, it gives nothing.
pub proof fn lemma_grep_searches_every_line(ctx: Seq<char>, pattern: Seq<char>)
    requires
        regex_compile(pattern) is Ok,
        forall|i: int| 0 <= i < ctx.len() ==> ctx[i] != '\r',
    ensures
        (forall|l: Seq<char>| #[trigger] regex_is_match(pattern, l)) ==> spec_ctx_grep(
            ctx,
            pattern,
        ) == without_final_newline(ctx),
        (forall|l: Seq<char>| !#[trigger] regex_is_match(pattern, l)) ==> spec_ctx_grep(
            ctx,
            pattern,
        ).len() == 0,
{
    lemma_lines_rejoin(ctx);
    lemma_matching_all_or_none(lines(ctx), pattern);
}

/// Law: a context of one line with no line break, such as a context given
/// on the command line, is searched as that line: `ctx_grep` gives the line
/// when the pattern matches it and nothing when it does not.
pub proof fn lemma_grep_single_line(ctx: Seq<char>, pattern: Seq<char>)
    requires
        regex_compile(pattern) is Ok,
        ctx.len() > 0,
        forall|i: int| 0 <= i < ctx.len() ==> ctx[i] != '\n',
    ensures
        spec_ctx_grep(ctx, pattern) == if regex_is_match(pattern, ctx) {
            ctx
        } else {
            Seq::<char>::empty()
        },
{
    lemma_first_newline_bound(ctx);
    assert(lines(ctx) == seq![ctx]);
    let one = seq![ctx];
    assert(one.drop_last() =~= Seq::<Seq<char>>::empty());
    assert(Seq::<Seq<char>>::empty().push(ctx) =~= one);
    assert(one.last() == ctx);
    assert(join_lines(one) == ctx);
    assert(join_lines(Seq::<Seq<char>>::empty()) == Seq::<char>::empty());
    assert(matching_lines(Seq::<Seq<char>>::empty(), pattern) == Seq::<Seq<char>>::empty());
    assert(matching_lines(one, pattern) == if regex_is_match(pattern, ctx) {
        one
    } else {
        Seq::<Seq<char>>::empty()
    });
}

/// `ctx_grep(pattern)`: the lines of the context that the regex matches,
/// joined with `'\n'`; `"regex error: "` and the error's message when the
/// pattern does not compile.
pub fn ctx_grep(ctx: &str, pattern: &str) -> (out: String)
    ensures
        out@ == spec_ctx_grep(ctx@, pattern@),
{
    let compiled = match compile_pattern(pattern) {
        Ok(c) => c,
        Err(m) => {
            let mut out = String::from_str("regex error: ");
            out.append(m.as_str());
            return out;
        },
    };
    let v = chars_of(ctx);
    let cr = chars_of("\r");
    proof {
        lemma_newline_literal();
    }
    let mut out = String::new();
    let ghost mut done: Seq<Seq<char>> = Seq::empty();
    let ghost mut kept: Seq<Seq<char>> = Seq::empty();
    let mut pos: usize = 0;
    let mut first = true;
    assert(v@.skip(0) =~= v@);
    while pos < v.len()
        invariant
            pos <= v.len(),
            v@ == ctx@,
            cr@ == seq!['\r'],
            compiled.pattern() == pattern@,
            regex_compile(pattern@) == Ok::<(), Seq<char>>(()),
            lines(v@) == done + lines(v@.skip(pos as int)),
            kept == matching_lines(done, pattern@),
            first == (kept.len() == 0),
            out@ == join_lines(kept),
        decreases v.len() - pos,
    {
        let ghost rest = v@.skip(pos as int);
        proof {
            lemma_first_newline_bound(rest);
        }
        let mut j = pos;
        while j < v.len() && v[j] != '\n'
            invariant
                pos <= j <= v.len(),
                rest == v@.skip(pos as int),
                first_newline(rest) == (j - pos) + first_newline(v@.skip(j as int)),
            decreases v.len() - j,
        {
            assert(v@.skip(j as int).drop_first() =~= v@.skip(j + 1));
            j = j + 1;
        }
        let k = j - pos;
        assert(first_newline(rest) == k);
        let mut line = sub_chars(&v, pos, j);
        assert(line@ =~= rest.take(k as int));
        proof {
            if line@.len() > 0 {
                assert(line@.subrange(line@.len() - 1, line@.len() as int) =~= seq![line@.last()]);
            }
        }
        if j < v.len() {
            if ends_with(&line, &cr) {
                let ghost before = line@;
                assert(seq![before.last()][0] == cr@[0]);
                let n = line.len() - 1;
                line.truncate(n);
                assert(line@ =~= strip_cr(rest.take(k as int)));
            } else {
                assert(line@ =~= strip_cr(rest.take(k as int)));
            }
        }
        let text = string_of(&line);
        let ghost next_done = done.push(line@);
        proof {
            lemma_matching_append(done, line@, pattern@);
            lemma_join_push(kept, line@);
        }
        if pattern_is_match(&compiled, text.as_str()) {
            if !first {
                out.append("\n");
                proof {
                    lemma_newline_literal();
                }
            }
            out.append(text.as_str());
            first = false;
            proof {
                kept = kept.push(line@);
            }
        }
        proof {
            if j < v.len() {
                assert(lines(rest) == seq![line@] + lines(rest.skip(k + 1)));
                assert(rest.skip(k + 1) =~= v@.skip(j + 1));
                assert(lines(v@) == next_done + lines(v@.skip(j + 1)));
            } else {
                assert(lines(rest) == seq![line@]);
                assert(v@.skip(v@.len() as int) =~= Seq::<char>::empty());
                assert(lines(v@) == next_done + lines(v@.skip(v@.len() as int)));
            }
            done = next_done;
        }
        pos = if j < v.len() {
            j + 1
        } else {
            j
        };
    }
    proof {
        assert(v@.skip(pos as int) =~= Seq::<char>::empty());
        assert(done =~= lines(v@));
    }
    out
}

// ---------------------------------------------------------------------------
// Cell output
// ---------------------------------------------------------------------------

/// What a cell step is, given whether `done(answer)` was called, how the
/// script evaluated (its value's text, or its error's text), and what it
/// printed with `print_cell`.
pub open spec fn spec_cell_step(
    answer: Option<Seq<char>>,
    eval: Result<Seq<char>, Seq<char>>,
    printed: Seq<Seq<char>>,
) -> StepResultView {
    match answer {
        Some(a) => StepResultView::Final(a),
        None => match eval {
            Ok(value) => {
                let out = join_lines(printed);
                if value.len() != 0 && value != "()"@ {
                    if out.len() != 0 {
                        StepResultView::Continue(out + seq!['\n'] + value)
                    } else {
                        StepResultView::Continue(value)
                    }
                } else {
                    StepResultView::Continue(out)
                }
            },
            Err(e) => StepResultView::Continue("script error: "@ + e),
        },
    }
}

/// The step that a script's outcome makes: `Final` with the answer when the
/// script called `done(answer)`; otherwise `Continue` with what it printed
/// (one line per `print_cell` call) followed by its value unless that value
/// is empty or `()`, or with `"script error: "` and the error's text when the
/// script failed, so the model can correct itself.
pub fn cell_step(answer: Option<String>, eval: Result<String, String>, printed: &Vec<String>) -> (step: StepResult)
    ensures
        step@ == spec_cell_step(
            match answer {
                Some(a) => Some(a@),
                None => None,
            },
            match eval {
                Ok(v) => Ok(v@),
                Err(e) => Err(e@),
            },
            printed@.map_values(|p: String| p@),
        ),
{
    let ghost parts = printed@.map_values(|p: String| p@);
    let mut out = String::new();
    let mut i: usize = 0;
    while i < printed.len()
        invariant
            i <= printed.len(),
            parts == printed@.map_values(|p: String| p@),
            out@ == join_lines(parts.take(i as int)),
        decreases printed.len() - i,
    {
        proof {
            lemma_join_push(parts.take(i as int), parts[i as int]);
            assert(parts.take(i + 1) =~= parts.take(i as int).push(parts[i as int]));
            lemma_newline_literal();
        }
        if i > 0 {
            out.append("\n");
        }
        out.append(printed[i].as_str());
        i = i + 1;
    }
    assert(parts.take(i as int) =~= parts);
    match answer {
        Some(a) => StepResult::Final(a),
        None => match eval {
            Ok(value) => {
                let unit = String::from_str("()");
                let value_chars = chars_of(value.as_str());
                let empty_output = out.as_str().is_empty();
                if value_chars.len() != 0 && value != unit {
                    if !empty_output {
                        out.append("\n");
                        proof {
                            lemma_newline_literal();
                        }
                    }
                    out.append(value.as_str());
                }
                StepResult::Continue(out)
            },
            Err(e) => {
                let mut msg = String::from_str("script error: ");
                msg.append(e.as_str());
                StepResult::Continue(msg)
            },
        },
    }
}

} // verus!
