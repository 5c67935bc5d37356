//! Greedy word wrapping.
//!
//! A paragraph's inline content is split into blank-separated words, then
//! re-filled greedily: words accumulate on a line until the next word would
//! push the line past the configured width.  A single word is never split,
//! so a word longer than the width stands alone on an over-long line.

use vstd::prelude::*;

verus! {

/// The words of `s[i..]`, given the word `cur` read so far and the words
/// `acc` already complete.  Words are maximal runs of non-space characters.
pub open spec fn split_acc(s: Seq<char>, i: int, cur: Seq<char>, acc: Seq<Seq<char>>) -> Seq<
    Seq<char>,
>
    decreases s.len() - i,
{
    if i < 0 || i >= s.len() {
        if cur.len() > 0 {
            acc.push(cur)
        } else {
            acc
        }
    } else if s[i] == ' ' {
        if cur.len() > 0 {
            split_acc(s, i + 1, Seq::empty(), acc.push(cur))
        } else {
            split_acc(s, i + 1, Seq::empty(), acc)
        }
    } else {
        split_acc(s, i + 1, cur.push(s[i]), acc)
    }
}

/// The words of `s`.
pub open spec fn words_of(s: Seq<char>) -> Seq<Seq<char>> {
    split_acc(s, 0, Seq::empty(), Seq::empty())
}

/// The lines of a greedy fill of `words[i..]`, with `cur` the line being
/// filled and `cont` the prefix of every further line.
pub open spec fn greedy_lines(
    words: Seq<Seq<char>>,
    i: int,
    cur: Seq<char>,
    cont: Seq<char>,
    width: int,
) -> Seq<Seq<char>>
    decreases words.len() - i,
{
    if i < 0 || i >= words.len() {
        seq![cur]
    } else if cur.len() + 1 + words[i].len() <= width {
        greedy_lines(words, i + 1, cur + seq![' '] + words[i], cont, width)
    } else {
        seq![cur] + greedy_lines(words, i + 1, cont + words[i], cont, width)
    }
}

/// The lines of `lines[i..]` joined with single line breaks.
pub open spec fn joined(lines: Seq<Seq<char>>, i: int) -> Seq<char>
    decreases lines.len() - i,
{
    if i < 0 || i >= lines.len() {
        Seq::empty()
    } else if i + 1 == lines.len() {
        lines[i]
    } else {
        lines[i] + seq!['\n'] + joined(lines, i + 1)
    }
}

/// The full wrapped rendering of `content`: its words re-filled greedily at
/// `width`, the first line starting with `first_prefix`, every further line
/// with `cont_prefix`, lines joined with line breaks and no trailing break.
pub open spec fn wrapped(
    content: Seq<char>,
    first_prefix: Seq<char>,
    cont_prefix: Seq<char>,
    width: int,
) -> Seq<char> {
    let ws = words_of(content);
    if ws.len() == 0 {
        first_prefix
    } else {
        joined(greedy_lines(ws, 1, first_prefix + ws[0], cont_prefix, width), 0)
    }
}

/// Split `s` into its blank-separated words.
pub fn split_words(s: &[char]) -> (r: Vec<Vec<char>>)
    ensures
        r.deep_view() == words_of(s@),
{
    let mut acc: Vec<Vec<char>> = Vec::new();
    let mut cur: Vec<char> = Vec::new();
    let mut i: usize = 0;
    proof {
        assert(acc.deep_view() =~~= Seq::<Seq<char>>::empty());
        assert(cur@ =~= Seq::<char>::empty());
    }
    while i < s.len()
        invariant
            i <= s.len(),
            words_of(s@) == split_acc(s@, i as int, cur@, acc.deep_view()),
        decreases s.len() - i,
    {
        let ghost prev_acc = acc.deep_view();
        let ghost prev_cur = cur@;
        if s[i] == ' ' {
            if cur.len() > 0 {
                acc.push(cur);
                cur = Vec::new();
                proof {
                    assert(acc.deep_view() =~~= prev_acc.push(prev_cur));
                    assert(cur@ =~= Seq::<char>::empty());
                    assert(split_acc(s@, i as int, prev_cur, prev_acc) == split_acc(
                        s@,
                        i as int + 1,
                        Seq::empty(),
                        prev_acc.push(prev_cur),
                    ));
                }
            } else {
                proof {
                    assert(prev_cur =~= Seq::<char>::empty());
                    assert(split_acc(s@, i as int, prev_cur, prev_acc) == split_acc(
                        s@,
                        i as int + 1,
                        Seq::empty(),
                        prev_acc,
                    ));
                    assert(cur@ =~= Seq::<char>::empty());
                }
            }
        } else {
            cur.push(s[i]);
            proof {
                assert(split_acc(s@, i as int, prev_cur, prev_acc) == split_acc(
                    s@,
                    i as int + 1,
                    prev_cur.push(s@[i as int]),
                    prev_acc,
                ));
            }
        }
        i = i + 1;
    }
    if cur.len() > 0 {
        let ghost prev_acc = acc.deep_view();
        let ghost prev_cur = cur@;
        acc.push(cur);
        proof {
            assert(acc.deep_view() =~~= prev_acc.push(prev_cur));
        }
    }
    acc
}

/// Fill `words` into lines at most `width` wide where possible.
pub fn fill_words(words: &Vec<Vec<char>>, first_prefix: &[char], cont_prefix: &[char], width: usize)
    -> (r: Vec<Vec<char>>)
    requires
        words.deep_view().len() > 0,
    ensures
        r.deep_view() == greedy_lines(
            words.deep_view(),
            1,
            first_prefix@ + words.deep_view()[0],
            cont_prefix@,
            width as int,
        ),
{
    let ghost ws = words.deep_view();
    let mut cur: Vec<char> = Vec::new();
    crate::text::append_chars(&mut cur, first_prefix);
    crate::text::append_chars(&mut cur, words[0].as_slice());
    proof {
        assert(cur@ =~= first_prefix@ + ws[0]);
    }
    let mut out: Vec<Vec<char>> = Vec::new();
    let mut i: usize = 1;
    let ghost total = greedy_lines(ws, 1, cur@, cont_prefix@, width as int);
    while i < words.len()
        invariant
            1 <= i <= words.len(),
            ws == words.deep_view(),
            total == out.deep_view() + greedy_lines(ws, i as int, cur@, cont_prefix@,
                width as int,
            ),
        decreases words.len() - i,
    {
        let ghost prev_out = out.deep_view();
        let ghost prev_cur = cur@;
        let w = &words[i];
        if cur.len() < width && w.len() <= width - cur.len() - 1 {
            cur.push(' ');
            crate::text::append_chars(&mut cur, w.as_slice());
            proof {
                assert(cur@ =~= prev_cur + seq![' '] + ws[i as int]);
            }
        } else {
            out.push(cur);
            cur = Vec::new();
            crate::text::append_chars(&mut cur, cont_prefix);
            crate::text::append_chars(&mut cur, w.as_slice());
            proof {
                assert(out.deep_view() =~~= prev_out.push(prev_cur));
                assert(cur@ =~= cont_prefix@ + ws[i as int]);
                assert(prev_out + (seq![prev_cur] + greedy_lines(ws, i as int + 1, cur@,
                    cont_prefix@, width as int)) =~= out.deep_view() + greedy_lines(ws,
                    i as int + 1, cur@, cont_prefix@, width as int));
            }
        }
        i = i + 1;
    }
    let ghost prev_out = out.deep_view();
    let ghost prev_cur = cur@;
    out.push(cur);
    proof {
        assert(out.deep_view() =~~= prev_out.push(prev_cur));
        assert(greedy_lines(ws, words.deep_view().len() as int, prev_cur, cont_prefix@,
            width as int) =~= seq![prev_cur]);
        assert(out.deep_view() =~= total);
    }
    out
}

/// Append `lines` joined with line breaks to `out`.
pub fn append_joined(out: &mut Vec<char>, lines: &Vec<Vec<char>>)
    ensures
        final(out)@ == old(out)@ + joined(lines.deep_view(), 0),
{
    let ghost ls = lines.deep_view();
    let mut i: usize = 0;
    while i < lines.len()
        invariant
            i <= lines.len(),
            ls == lines.deep_view(),
            old(out)@ + joined(ls, 0) == out@ + joined(ls, i as int),
        decreases lines.len() - i,
    {
        let ghost prev = out@;
        crate::text::append_chars(out, lines[i].as_slice());
        if i + 1 < lines.len() {
            out.push('\n');
            proof {
                assert(joined(ls, i as int) == ls[i as int] + seq!['\n'] + joined(ls, i as int + 1));
                assert(out@ + joined(ls, i as int + 1) =~= prev + joined(ls, i as int));
            }
        } else {
            proof {
                assert(joined(ls, i as int) == ls[i as int]);
                assert(joined(ls, i as int + 1) =~= Seq::<char>::empty());
                assert(out@ + joined(ls, i as int + 1) =~= prev + joined(ls, i as int));
            }
        }
        i = i + 1;
    }
    proof {
        assert(joined(ls, lines.deep_view().len() as int) =~= Seq::<char>::empty());
        assert(out@ =~= out@ + joined(ls, i as int));
        assert(out@ =~= old(out)@ + joined(ls, 0));
    }
}

/// Append the wrapped rendering of `content` to `out`, with distinct first
/// and continuation prefixes.
pub fn append_wrapped_first_line(
    out: &mut Vec<char>,
    content: &[char],
    first_prefix: &[char],
    cont_prefix: &[char],
    width: usize,
)
    ensures
        final(out)@ == old(out)@ + wrapped(content@, first_prefix@, cont_prefix@, width as int),
{
    let words = split_words(content);
    if words.len() == 0 {
        crate::text::append_chars(out, first_prefix);
        proof {
            assert(words.deep_view().len() == 0);
        }
        return;
    }
    proof {
        assert(words.deep_view().len() == words@.len());
    }
    let lines = fill_words(&words, first_prefix, cont_prefix, width);
    append_joined(out, &lines);
}

/// Append the wrapped rendering of `content` to `out`, every line carrying
/// the same prefix.
pub fn append_wrapped(out: &mut Vec<char>, content: &[char], prefix: &[char], width: usize)
    ensures
        final(out)@ == old(out)@ + wrapped(content@, prefix@, prefix@, width as int),
{
    append_wrapped_first_line(out, content, prefix, prefix, width);
}

/// Whether `l` is an acceptable wrapped line: within the width, or made of a
/// prefix and one unsplittable word.
pub open spec fn line_within(
    l: Seq<char>,
    words: Seq<Seq<char>>,
    first: Seq<char>,
    cont: Seq<char>,
    width: int,
) -> bool {
    l.len() <= width || (exists|k: int|
        0 <= k < words.len() && (l == first + words[k] || l == cont + words[k]))
}

/// Every line of a greedy fill is within the width unless it holds a single
/// word that does not fit after its prefix.
pub proof fn lemma_greedy_width(
    words: Seq<Seq<char>>,
    i: int,
    cur: Seq<char>,
    first: Seq<char>,
    cont: Seq<char>,
    width: int,
)
    requires
        cur.len() <= width || (exists|k: int|
            0 <= k < words.len() && (cur == first + words[k] || cur == cont + words[k])),
    ensures
        forall|j: int|
            0 <= j < greedy_lines(words, i, cur, cont, width).len() ==> line_within(
                #[trigger] greedy_lines(words, i, cur, cont, width)[j],
                words,
                first,
                cont,
                width,
            ),
    decreases words.len() - i,
{
    let whole = greedy_lines(words, i, cur, cont, width);
    if i < 0 || i >= words.len() {
        assert(whole =~= seq![cur]);
        assert(line_within(cur, words, first, cont, width));
        assert(forall|j: int| 0 <= j < whole.len() ==> whole[j] == cur);
    } else if cur.len() + 1 + words[i].len() <= width {
        lemma_greedy_width(words, i + 1, cur + seq![' '] + words[i], first, cont, width);
        assert(whole == greedy_lines(words, i + 1, cur + seq![' '] + words[i], cont, width));
    } else {
        lemma_greedy_width(words, i + 1, cont + words[i], first, cont, width);
        let rest = greedy_lines(words, i + 1, cont + words[i], cont, width);
        let whole = greedy_lines(words, i, cur, cont, width);
        assert forall|j: int| 0 <= j < whole.len() implies line_within(
            whole[j],
            words,
            first,
            cont,
            width,
        ) by {
            if j > 0 {
                assert(whole[j] == rest[j - 1]);
            }
        }
    }
}

/// The width property of the wrapper, stated of the whole rendering: every
/// line of the greedy fill of a paragraph is within the width, except a line
/// holding a prefix and one word that does not fit.
pub proof fn lemma_wrap_width(content: Seq<char>, first: Seq<char>, cont: Seq<char>, width: int)
    requires
        words_of(content).len() > 0,
    ensures
        forall|j: int|
            0 <= j < greedy_lines(
                words_of(content),
                1,
                first + words_of(content)[0],
                cont,
                width,
            ).len() ==> line_within(
                #[trigger] greedy_lines(
                    words_of(content),
                    1,
                    first + words_of(content)[0],
                    cont,
                    width,
                )[j],
                words_of(content),
                first,
                cont,
                width,
            ),
{
    let ws = words_of(content);
    let cur = first + ws[0];
    assert(cur == first + ws[0]);
    lemma_greedy_width(ws, 1, cur, first, cont, width);
}

} // verus!
