//! Titles and descriptions of pull requests: from the tip commit message
//! of a branch, or, failing that, from the branch name.
use vstd::prelude::*;

use crate::text::{
    is_space,
    chars_of, is_blank, is_blank_chars, join, join_chars, lines, lines_chars, split_chars,
    split_on, string_of, trim, trim_chars, trim_end, trim_end_chars, words, words_chars,
    lemma_split_on_nonempty,
};

verus! {

/// What `char::to_uppercase` yields for `c`, as characters.
pub uninterp spec fn upper_of(c: char) -> Seq<char>;

/// `c` in upper case (`char::to_uppercase`, collected): one or more
/// characters, as its documentation says; which ones is left to the name
/// `upper_of`.
#[verifier::external_body]
fn uppercase(c: char) -> (r: String)
    ensures
        r@ == upper_of(c),
        r@.len() >= 1,
{
    c.to_uppercase().collect()
}

/// The part of a branch name after its last `/`.
pub open spec fn last_segment(branch: Seq<char>) -> Seq<char> {
    split_on(branch, '/').last()
}

/// `s` with each `-` and `_` replaced by a space.
pub open spec fn dashes_to_spaces(s: Seq<char>) -> Seq<char> {
    s.map_values(|c: char| if c == '-' || c == '_' { ' ' } else { c })
}

/// The words of the title made from a branch name.
pub open spec fn title_words(branch: Seq<char>) -> Seq<Seq<char>> {
    words(dashes_to_spaces(last_segment(branch)))
}

/// A word whose first character is replaced by `first`.
pub open spec fn with_first(first: Seq<char>, word: Seq<char>) -> Seq<char> {
    first + word.drop_first()
}

/// The title made from a branch name: the words of its last segment, each
/// with its first character in upper case, separated by single spaces.
pub open spec fn title_from_branch(branch: Seq<char>) -> Seq<char> {
    let ws = title_words(branch);
    join(Seq::new(ws.len(), |i: int| with_first(upper_of(ws[i][0]), ws[i])), seq![' '])
}

/// The first line of a commit message, trimmed.
pub open spec fn message_title(m: Seq<char>) -> Seq<char> {
    let ls = lines(m);
    trim(if ls.len() > 0 { ls[0] } else { Seq::empty() })
}

/// The lines from the first that is not blank on.
pub open spec fn skip_blank(ls: Seq<Seq<char>>) -> Seq<Seq<char>>
    decreases ls.len(),
{
    if ls.len() > 0 && is_blank(ls[0]) {
        skip_blank(ls.drop_first())
    } else {
        ls
    }
}

/// The description in a commit message: the lines after the first, without
/// the blank lines that follow it, joined by line feeds, without trailing
/// whitespace (leading indentation is kept).
pub open spec fn message_body(m: Seq<char>) -> Seq<char> {
    let ls = lines(m);
    let rest = if ls.len() > 0 { ls.drop_first() } else { Seq::empty() };
    trim_end(join(skip_blank(rest), seq!['\n']))
}

/// Title and description of a pull request: from the commit message when
/// it could be read and its title is not empty, else the title made from
/// the branch name and an empty description.
pub open spec fn title_and_body(message: Option<Seq<char>>, branch: Seq<char>) -> (
    Seq<char>,
    Seq<char>,
) {
    match message {
        Some(m) if message_title(m).len() > 0 => (message_title(m), message_body(m)),
        _ => (title_from_branch(branch), Seq::empty()),
    }
}

/// The words of the title made from `branch_name` (see `title_words`).
pub fn title_words_of(branch_name: &str) -> (r: Vec<String>)
    ensures
        r@.len() == title_words(branch_name@).len(),
        forall|i: int| 0 <= i < r@.len() ==> #[trigger] r@[i]@ == title_words(branch_name@)[i],
        forall|i: int| 0 <= i < r@.len() ==> #[trigger] r@[i]@.len() > 0,
{
    let cs = chars_of(branch_name);
    let pieces = split_chars(&cs, '/');
    proof {
        lemma_split_on_nonempty(cs@, '/');
    }
    let seg = &pieces[pieces.len() - 1];
    assert(seg@ == last_segment(branch_name@));
    let mut spaced: Vec<char> = Vec::new();
    let mut k: usize = 0;
    while k < seg.len()
        invariant
            k <= seg@.len(),
            spaced@ == dashes_to_spaces(seg@.take(k as int)),
        decreases seg.len() - k,
    {
        let c = seg[k];
        if c == '-' || c == '_' {
            spaced.push(' ');
        } else {
            spaced.push(c);
        }
        assert(dashes_to_spaces(seg@.take(k + 1)) =~= dashes_to_spaces(seg@.take(k as int)).push(
            if c == '-' || c == '_' {
                ' '
            } else {
                c
            },
        ));
        k = k + 1;
    }
    assert(seg@.take(seg@.len() as int) =~= seg@);
    let ws = words_chars(&spaced);
    proof {
        lemma_words_nonempty(spaced@);
    }
    let mut r: Vec<String> = Vec::new();
    let mut i: usize = 0;
    while i < ws.len()
        invariant
            i <= ws@.len(),
            ws@.len() == title_words(branch_name@).len(),
            forall|j: int| 0 <= j < ws@.len() ==> #[trigger] ws@[j]@ == title_words(branch_name@)[j],
            forall|j: int| 0 <= j < ws@.len() ==> #[trigger] ws@[j]@.len() > 0,
            r@.len() == i,
            forall|j: int| 0 <= j < i ==> #[trigger] r@[j]@ == ws@[j]@,
        decreases ws.len() - i,
    {
        r.push(string_of(&ws[i]));
        i = i + 1;
    }
    r
}

/// Words are never empty.
pub proof fn lemma_words_nonempty(s: Seq<char>)
    ensures
        forall|i: int| 0 <= i < words(s).len() ==> #[trigger] words(s)[i].len() > 0,
    decreases s.len(),
{
    if s.len() > 0 {
        let w = words(s.drop_last());
        lemma_words_nonempty(s.drop_last());
        assert forall|i: int| 0 <= i < words(s).len() implies #[trigger] words(s)[i].len() > 0 by {
            let c = s.last();
            if is_space(c) {
                assert(words(s) == w);
            } else if s.len() >= 2 && !is_space(s[s.len() - 2]) {
                crate::text::lemma_words_last(s.drop_last());
                assert(s.drop_last().last() == s[s.len() - 2]);
                assert(w.len() >= 1);
                assert(words(s) == w.update(w.len() - 1, w.last().push(c)));
                if i == w.len() - 1 {
                    assert(words(s)[i] == w.last().push(c));
                } else {
                    assert(words(s)[i] == w[i]);
                }
            } else {
                assert(words(s) == w.push(seq![c]));
                if i < w.len() {
                    assert(words(s)[i] == w[i]);
                }
            }
        }
    }
}

/// The title made from words whose first characters are replaced by
/// `firsts` (the upper-case forms of those characters).
pub fn title_from_words(words: &Vec<String>, firsts: &Vec<String>) -> (r: String)
    requires
        words@.len() == firsts@.len(),
        forall|i: int| 0 <= i < words@.len() ==> #[trigger] words@[i]@.len() > 0,
    ensures
        r@ == join(
            Seq::new(words@.len(), |i: int| with_first(firsts@[i]@, words@[i]@)),
            seq![' '],
        ),
{
    let ghost target = Seq::new(words@.len(), |i: int| with_first(firsts@[i]@, words@[i]@));
    let mut parts: Vec<Vec<char>> = Vec::new();
    let mut i: usize = 0;
    while i < words.len()
        invariant
            i <= words@.len(),
            words@.len() == firsts@.len(),
            target == Seq::new(words@.len(), |i: int| with_first(firsts@[i]@, words@[i]@)),
            forall|j: int| 0 <= j < words@.len() ==> #[trigger] words@[j]@.len() > 0,
            parts@.len() == i,
            forall|j: int| 0 <= j < i ==> #[trigger] parts@[j]@ == target[j],
        decreases words.len() - i,
    {
        let w = chars_of(words[i].as_str());
        let mut part = chars_of(firsts[i].as_str());
        let mut q: usize = 1;
        while q < w.len()
            invariant
                1 <= q <= w@.len(),
                part@ == firsts@[i as int]@ + w@.subrange(1, q as int),
            decreases w.len() - q,
        {
            part.push(w[q]);
            assert(w@.subrange(1, q as int).push(w@[q as int]) =~= w@.subrange(1, q + 1));
            assert(firsts@[i as int]@ + w@.subrange(1, q + 1) =~= (firsts@[i as int]@ + w@.subrange(
                1,
                q as int,
            )).push(w@[q as int]));
            q = q + 1;
        }
        assert(w@.subrange(1, w@.len() as int) =~= w@.drop_first());
        parts.push(part);
        i = i + 1;
    }
    let mut sep: Vec<char> = Vec::new();
    sep.push(' ');
    let joined = join_chars(&parts, &sep);
    assert(parts@.map_values(|p: Vec<char>| p@) =~= target);
    assert(sep@ =~= seq![' ']);
    string_of(&joined)
}

/// Generates a pull request title from a branch name: the part after the
/// last `/`, with `-` and `_` read as spaces, split into words, each word
/// starting with its first character in upper case.
pub fn generate_title(branch_name: &str) -> (title: String)
    ensures
        title@ == title_from_branch(branch_name@),
{
    let ws = title_words_of(branch_name);
    let mut firsts: Vec<String> = Vec::new();
    let mut i: usize = 0;
    while i < ws.len()
        invariant
            i <= ws@.len(),
            ws@.len() == title_words(branch_name@).len(),
            forall|j: int|
                0 <= j < ws@.len() ==> #[trigger] ws@[j]@ == title_words(branch_name@)[j],
            forall|j: int| 0 <= j < ws@.len() ==> #[trigger] ws@[j]@.len() > 0,
            firsts@.len() == i,
            forall|j: int| 0 <= j < i ==> #[trigger] firsts@[j]@ == upper_of(ws@[j]@[0]),
        decreases ws.len() - i,
    {
        let w = chars_of(ws[i].as_str());
        firsts.push(uppercase(w[0]));
        i = i + 1;
    }
    let title = title_from_words(&ws, &firsts);
    proof {
        let tw = title_words(branch_name@);
        assert(Seq::new(ws@.len(), |i: int| with_first(firsts@[i]@, ws@[i]@)) =~= Seq::new(
            tw.len(),
            |i: int| with_first(upper_of(tw[i][0]), tw[i]),
        ));
    }
    title
}

/// Title and description of a pull request (see `title_and_body`):
/// `message` is the tip commit message of the branch, `None` when it could
/// not be read.
pub fn get_pr_title_and_body(message: Option<&str>, branch_name: &str) -> (r: (String, String))
    ensures
        (r.0@, r.1@) == title_and_body(
            match message {
                Some(m) => Some(m@),
                None => None,
            },
            branch_name@,
        ),
{
    if let Some(m) = message {
        let ls = lines_chars(&chars_of(m));
        let first: Vec<char> = if ls.len() > 0 {
            trim_chars(&ls[0])
        } else {
            trim_chars(&Vec::new())
        };
        assert(ls.len() > 0 ==> ls@[0]@ == lines(m@)[0]);
        if first.len() > 0 {
            let ghost lv = lines(m@);
            let ghost rest = if lv.len() > 0 {
                lv.drop_first()
            } else {
                Seq::<Seq<char>>::empty()
            };
            // skip the blank lines after the title
            let mut k: usize = if ls.len() > 0 {
                1
            } else {
                0
            };
            proof {
                if ls.len() > 0 {
                    assert(lv.skip(1) =~= rest);
                } else {
                    assert(lv.skip(0) =~= rest);
                }
            }
            while k < ls.len() && is_blank_chars(&ls[k])
                invariant
                    k <= ls@.len(),
                    ls@.len() == lv.len(),
                    lv == lines(m@),
                    forall|j: int| 0 <= j < ls@.len() ==> #[trigger] ls@[j]@ == lv[j],
                    skip_blank(rest) == skip_blank(lv.skip(k as int)),
                decreases ls.len() - k,
            {
                assert(lv.skip(k as int).drop_first() =~= lv.skip(k + 1));
                assert(lv.skip(k as int)[0] == lv[k as int]);
                k = k + 1;
            }
            proof {
                let s = lv.skip(k as int);
                if k < ls.len() {
                    assert(s[0] == lv[k as int]);
                }
            }
            let mut kept: Vec<Vec<char>> = Vec::new();
            let mut j: usize = k;
            while j < ls.len()
                invariant
                    k <= j <= ls@.len(),
                    ls@.len() == lv.len(),
                    forall|q: int| 0 <= q < ls@.len() ==> #[trigger] ls@[q]@ == lv[q],
                    kept@.map_values(|p: Vec<char>| p@) =~= lv.subrange(k as int, j as int),
                decreases ls.len() - j,
            {
                let mut copy: Vec<char> = Vec::new();
                crate::text::extend_chars(&mut copy, &ls[j]);
                kept.push(copy);
                assert(lv.subrange(k as int, j + 1) =~= lv.subrange(k as int, j as int).push(
                    lv[j as int],
                ));
                j = j + 1;
            }
            assert(lv.subrange(k as int, lv.len() as int) =~= lv.skip(k as int));
            let mut nl: Vec<char> = Vec::new();
            nl.push('\n');
            assert(nl@ =~= seq!['\n']);
            let body = trim_end_chars(&join_chars(&kept, &nl));
            return (string_of(&first), string_of(&body));
        }
    }
    (generate_title(branch_name), String::new())
}

} // verus!
