//! Client-side filler-word removal: a closed set of filler tokens is stripped from a transcript,
//! the same way for every provider and model.

use crate::text;
use crate::text::{ends_with, from_chars, is_listed, split_whitespace, to_chars, trim};
use vstd::prelude::*;

verus! {

/// Standalone filler tokens, matched in lower case as whole words (inner hyphens kept, so
/// "uh-huh" matches). Single letters and ambiguous interjections are left out, so that no real
/// word is eaten.
pub const FILLERS: [&'static str; 10] = [
    "um",
    "umm",
    "uh",
    "uhh",
    "uh-huh",
    "er",
    "erm",
    "hmm",
    "mhm",
    "mm-hmm",
];

/// What surrounds the core of a token: everything but letters, digits and hyphens.
pub open spec fn outer() -> spec_fn(char) -> bool {
    |c: char| !text::alphanumeric(c) && c != '-'
}

/// A token without what surrounds its core.
pub open spec fn bare(token: Seq<char>) -> Seq<char> {
    text::trim_end(text::trim_start(token, outer()), outer())
}

/// Whether the core of a token, in lower case, is a filler.
pub open spec fn filler_core(core: Seq<char>) -> bool {
    text::listed(FILLERS@, core)
}

/// Whether a token is a filler word.
pub open spec fn filler(token: Seq<char>) -> bool {
    filler_core(text::lowercase(bare(token)))
}

/// The tokens that are no filler words, in order.
pub open spec fn kept(tokens: Seq<Seq<char>>) -> Seq<Seq<char>>
    decreases tokens.len(),
{
    if tokens.len() == 0 {
        Seq::empty()
    } else if filler(tokens.last()) {
        kept(tokens.drop_last())
    } else {
        kept(tokens.drop_last()).push(tokens.last())
    }
}

/// Whether a token ends a sentence.
pub open spec fn ends_sentence(token: Seq<char>) -> bool {
    text::ends_in(token, '.') || text::ends_in(token, '!') || text::ends_in(token, '?')
}

/// Whether token `i` becomes the first of a later sentence: the token before it is a filler word,
/// which goes, and the last one that stays before that ends a sentence.
pub open spec fn becomes_initial(tokens: Seq<Seq<char>>, i: int) -> bool {
    &&& 0 < i < tokens.len()
    &&& filler(tokens[i - 1])
    &&& kept(tokens.take(i)).len() > 0
    &&& ends_sentence(kept(tokens.take(i)).last())
}

/// The tokens that are no filler words, in order, with a capital where one becomes the first of a
/// later sentence.
pub open spec fn recased(tokens: Seq<Seq<char>>) -> Seq<Seq<char>>
    decreases tokens.len(),
{
    if tokens.len() == 0 {
        Seq::empty()
    } else if filler(tokens.last()) {
        recased(tokens.drop_last())
    } else if becomes_initial(tokens, tokens.len() - 1) {
        recased(tokens.drop_last()).push(capitalized(tokens.last()))
    } else {
        recased(tokens.drop_last()).push(tokens.last())
    }
}

/// `s` without the spaces that stand directly before `p`.
pub open spec fn close_up(s: Seq<char>, p: char) -> Seq<char>
    decreases s.len(),
{
    if s.len() == 0 {
        Seq::empty()
    } else if s[0] == ' ' && s.len() > 1 && s[1] == p {
        close_up(s.skip(1), p)
    } else {
        seq![s[0]] + close_up(s.skip(1), p)
    }
}

/// `s` without the spaces that stand directly before a punctuation mark.
pub open spec fn close_up_all(s: Seq<char>) -> Seq<char> {
    close_up(close_up(close_up(close_up(close_up(close_up(s, ','), '.'), ';'), ':'), '!'), '?')
}

/// What a removed token may leave at the start of a sentence.
pub open spec fn leftover() -> spec_fn(char) -> bool {
    |c: char| c == ',' || c == '.' || c == ';' || c == ':' || c == ' '
}

/// The remaining tokens as a sentence: one space between two tokens, none before punctuation, and
/// no punctuation left over at the start.
pub open spec fn tidied(tokens: Seq<Seq<char>>) -> Seq<char> {
    text::trimmed(text::trim_start(close_up_all(text::join(tokens, " "@)), leftover()))
}

/// `s` with its first character in upper case.
pub open spec fn capitalized(s: Seq<char>) -> Seq<char> {
    if s.len() == 0 {
        Seq::empty()
    } else {
        text::uppercase(s[0]) + s.skip(1)
    }
}

/// `s` without its filler words, and with a capital where a word becomes the first of a sentence:
/// unchanged when it has none or nothing else.
pub open spec fn stripped(s: Seq<char>) -> Seq<char> {
    let tokens = text::words(s);
    let rest = recased(tokens);
    if rest.len() == tokens.len() || tidied(rest).len() == 0 {
        s
    } else {
        capitalized(tidied(rest))
    }
}

/// Whether `core`, a token's core in lower case, is a filler.
pub fn is_filler_core(core: &str) -> (r: bool)
    ensures
        r == filler_core(core@),
{
    is_listed(&FILLERS, core)
}

/// A token without what surrounds its core.
pub fn strip_outer(token: &str) -> (r: String)
    ensures
        r@ == bare(token@),
{
    let v: Vec<char> = to_chars(token);
    let mut from: usize = 0;
    while from < v.len() && !v[from].is_alphanumeric() && v[from] != '-'
        invariant
            v@ == token@,
            from <= v@.len(),
            forall|j: int| 0 <= j < from ==> outer()(#[trigger] v@[j]),
        decreases v.len() - from,
    {
        from += 1;
    }
    proof {
        assert forall|j: int| 0 <= j < from implies #[trigger] outer()(token@[j]) by {
            assert(outer()(v@[j]));
        }
        text::lemma_span_is(token@, outer(), from as int);
    }
    let ghost tail = token@.skip(from as int);
    let mut to: usize = v.len();
    while to > from && !v[to - 1].is_alphanumeric() && v[to - 1] != '-'
        invariant
            v@ == token@,
            from <= to <= v@.len(),
            forall|j: int| to <= j < v@.len() ==> outer()(#[trigger] v@[j]),
        decreases to,
    {
        to -= 1;
    }
    proof {
        let n = v@.len() - to;
        assert forall|j: int| tail.len() - n <= j < tail.len() implies #[trigger] outer()(
            tail[j],
        ) by {
            assert(outer()(v@[from + j]));
        }
        text::lemma_rspan_is(tail, outer(), n as int);
        assert(tail.take(tail.len() - n) =~= v@.subrange(from as int, to as int));
    }
    from_chars(&v, from, to)
}

/// Whether a token is a filler word.
pub fn is_filler(token: &str) -> (r: bool)
    ensures
        r == filler(token@),
{
    let core: String = strip_outer(token).as_str().to_lowercase();
    is_filler_core(core.as_str())
}

fn without_space_before(v: &Vec<char>, p: char) -> (r: Vec<char>)
    ensures
        r@ == close_up(v@, p),
{
    let mut r: Vec<char> = Vec::new();
    let mut i: usize = 0;
    assert(v@.skip(0) =~= v@);
    assert(r@ + close_up(v@, p) =~= close_up(v@, p));
    while i < v.len()
        invariant
            i <= v@.len(),
            close_up(v@, p) == r@ + close_up(v@.skip(i as int), p),
        decreases v.len() - i,
    {
        let ghost rest = v@.skip(i as int);
        assert(rest[0] == v@[i as int]);
        assert(rest.skip(1) =~= v@.skip(i + 1));
        if !(v[i] == ' ' && i + 1 < v.len() && v[i + 1] == p) {
            let ghost before = r@;
            r.push(v[i]);
            assert(before + (seq![rest[0]] + close_up(rest.skip(1), p)) =~= r@ + close_up(
                rest.skip(1),
                p,
            ));
        }
        i += 1;
    }
    assert(r@ + close_up(v@.skip(i as int), p) =~= r@);
    r
}

/// The tokens as a sentence: one space between two tokens, none before punctuation, and no
/// punctuation left over at the start.
pub fn tidy(tokens: &[String]) -> (r: String)
    ensures
        r@ == tidied(text::views(tokens@)),
{
    let joined: String = text::join_list(tokens, " ");
    let v: Vec<char> = to_chars(joined.as_str());
    let v: Vec<char> = without_space_before(&v, ',');
    let v: Vec<char> = without_space_before(&v, '.');
    let v: Vec<char> = without_space_before(&v, ';');
    let v: Vec<char> = without_space_before(&v, ':');
    let v: Vec<char> = without_space_before(&v, '!');
    let v: Vec<char> = without_space_before(&v, '?');
    let mut from: usize = 0;
    while from < v.len() && (v[from] == ',' || v[from] == '.' || v[from] == ';' || v[from] == ':'
        || v[from] == ' ')
        invariant
            from <= v@.len(),
            forall|j: int| 0 <= j < from ==> leftover()(#[trigger] v@[j]),
        decreases v.len() - from,
    {
        from += 1;
    }
    proof {
        assert forall|j: int| 0 <= j < from implies #[trigger] leftover()(v@[j]) by {}
        text::lemma_span_is(v@, leftover(), from as int);
        assert(v@.subrange(from as int, v@.len() as int) =~= v@.skip(from as int));
    }
    trim(from_chars(&v, from, v.len()).as_str())
}

/// `s` with its first character in upper case.
pub fn capitalize_first(s: &str) -> (r: String)
    ensures
        r@ == capitalized(s@),
        s@.len() > 0 ==> r@.len() > 0,
{
    let n: usize = s.unicode_len();
    if n == 0 {
        return String::new();
    }
    let tail: &str = s.substring_char(1, n);
    assert(tail@ =~= s@.skip(1));
    text::to_uppercase(s.get_char(0)).concat(tail)
}

/// Whether a token ends a sentence.
fn closes_sentence(token: &str) -> (r: bool)
    ensures
        r == ends_sentence(token@),
{
    ends_with(token, '.') || ends_with(token, '!') || ends_with(token, '?')
}

/// Remove filler words from `s`. Drops whole tokens whose core is a known filler (e.g. "Uh," is
/// gone), tidies the punctuation and spacing left behind, and re-capitalizes the word that becomes
/// sentence-initial. Returns the original text if nothing changed or it would be emptied.
pub fn strip_fillers(s: &str) -> (r: String)
    ensures
        r@ == stripped(s@),
        s@.len() > 0 ==> r@.len() > 0,
{
    let tokens: Vec<String> = split_whitespace(s);
    let ghost all = text::views(tokens@);
    let mut rest: Vec<String> = Vec::new();
    // Whether the last token that stays ends a sentence, and whether one was dropped after it.
    let mut closed: bool = false;
    let mut dropped: bool = false;
    let mut i: usize = 0;
    assert(all.take(0) =~= Seq::<Seq<char>>::empty());
    assert(text::views(rest@) =~= Seq::<Seq<char>>::empty());
    while i < tokens.len()
        invariant
            i <= tokens@.len(),
            all == text::views(tokens@),
            text::views(rest@) == recased(all.take(i as int)),
            closed == ({
                let so_far = kept(all.take(i as int));
                so_far.len() > 0 && ends_sentence(so_far.last())
            }),
            dropped == (i > 0 && filler(all[i - 1])),
        decreases tokens.len() - i,
    {
        let ghost next = all.take(i + 1);
        let token: &str = tokens[i].as_str();
        proof {
            assert(next.drop_last() =~= all.take(i as int));
            assert(next.take(i as int) =~= all.take(i as int));
            assert(next.last() == token@);
            assert(i > 0 ==> next[i - 1] == all[i - 1]);
        }
        if is_filler(token) {
            dropped = true;
        } else {
            let ghost before = rest@;
            let word: String = if dropped && closed {
                capitalize_first(token)
            } else {
                token.to_owned()
            };
            rest.push(word);
            assert(text::views(rest@) =~= text::views(before).push(word@));
            closed = closes_sentence(token);
            dropped = false;
        }
        i += 1;
    }
    assert(all.take(i as int) =~= all);
    if rest.len() == tokens.len() {
        return s.to_owned();
    }
    let out: String = tidy(&rest);
    if out.as_str().is_empty() {
        return s.to_owned();
    }
    capitalize_first(out.as_str())
}

/// A text without filler words is left untouched, whatever its spacing.
pub proof fn law_no_filler_no_change(s: Seq<char>)
    requires
        forall|i: int| 0 <= i < text::words(s).len() ==> !filler(#[trigger] text::words(s)[i]),
    ensures
        stripped(s) == s,
{
    lemma_all_kept(text::words(s));
}

proof fn lemma_all_kept(tokens: Seq<Seq<char>>)
    requires
        forall|i: int| 0 <= i < tokens.len() ==> !filler(#[trigger] tokens[i]),
    ensures
        kept(tokens) == tokens,
        recased(tokens) == tokens,
    decreases tokens.len(),
{
    if tokens.len() > 0 {
        assert(!filler(tokens[tokens.len() - 1]));
        assert(tokens.len() > 1 ==> !filler(tokens[tokens.len() - 2]));
        let front = tokens.drop_last();
        assert forall|i: int| 0 <= i < front.len() implies !filler(#[trigger] front[i]) by {
            assert(front[i] == tokens[i]);
        }
        lemma_all_kept(front);
        assert(front.push(tokens.last()) =~= tokens);
    }
}

/// Exactly the filler words are dropped: what is kept is no filler, every word that is no filler
/// is kept, and a text changes only when it holds a filler word.
pub proof fn law_only_fillers_go(tokens: Seq<Seq<char>>)
    ensures
        forall|i: int| 0 <= i < kept(tokens).len() ==> !filler(#[trigger] kept(tokens)[i]),
        forall|w: Seq<char>|
            #![trigger kept(tokens).contains(w)]
            !filler(w) ==> (kept(tokens).contains(w) <==> tokens.contains(w)),
        kept(tokens).len() <= tokens.len(),
        kept(tokens).len() == tokens.len() <==> (forall|i: int|
            0 <= i < tokens.len() ==> !filler(#[trigger] tokens[i])),
    decreases tokens.len(),
{
    if tokens.len() > 0 {
        let front = tokens.drop_last();
        law_only_fillers_go(front);
        assert forall|w: Seq<char>| #![trigger kept(tokens).contains(w)] !filler(w) implies (kept(
            tokens,
        ).contains(w) <==> tokens.contains(w)) by {
            if tokens.contains(w) {
                let i = choose|i: int| 0 <= i < tokens.len() && tokens[i] == w;
                if i < front.len() {
                    assert(front[i] == w);
                    assert(front.contains(w));
                    assert(kept(front).contains(w));
                    let k = choose|k: int| 0 <= k < kept(front).len() && kept(front)[k] == w;
                    assert(kept(tokens)[k] == w);
                } else {
                    assert(kept(tokens).last() == w);
                }
            }
            if kept(tokens).contains(w) {
                let k = choose|k: int| 0 <= k < kept(tokens).len() && kept(tokens)[k] == w;
                if k < kept(front).len() {
                    assert(kept(front)[k] == w);
                    assert(kept(front).contains(w));
                    let i = choose|i: int| 0 <= i < front.len() && front[i] == w;
                    assert(tokens[i] == w);
                } else {
                    assert(tokens.last() == w);
                }
            }
        }
        if kept(tokens).len() == tokens.len() {
            assert forall|i: int| 0 <= i < tokens.len() implies !filler(#[trigger] tokens[i]) by {
                if i < front.len() {
                    assert(front[i] == tokens[i]);
                }
            }
        }
        if forall|i: int| 0 <= i < tokens.len() ==> !filler(#[trigger] tokens[i]) {
            lemma_all_kept(tokens);
        }
    }
}

/// The words that stay are those that are no filler words, and each is as it was or has a capital:
/// it has one exactly where it becomes the first of a later sentence.
pub proof fn law_sentences_begin_with_a_capital(tokens: Seq<Seq<char>>, i: int)
    requires
        0 <= i < tokens.len(),
        !filler(tokens[i]),
    ensures
        recased(tokens).len() == kept(tokens).len(),
        kept(tokens.take(i)).len() < recased(tokens).len(),
        recased(tokens)[kept(tokens.take(i)).len() as int] == (if becomes_initial(tokens, i) {
            capitalized(tokens[i])
        } else {
            tokens[i]
        }),
{
    lemma_recased(tokens, i);
}

proof fn lemma_recased(tokens: Seq<Seq<char>>, i: int)
    ensures
        recased(tokens).len() == kept(tokens).len(),
        0 <= i < tokens.len() && !filler(tokens[i]) ==> {
            &&& kept(tokens.take(i)).len() < recased(tokens).len()
            &&& recased(tokens)[kept(tokens.take(i)).len() as int] == (if becomes_initial(
                tokens,
                i,
            ) {
                capitalized(tokens[i])
            } else {
                tokens[i]
            })
        },
    decreases tokens.len(),
{
    if tokens.len() > 0 {
        let front = tokens.drop_last();
        lemma_recased(front, i);
        if 0 <= i < front.len() {
            assert(front.take(i) =~= tokens.take(i));
            assert(front[i] == tokens[i]);
            assert(i > 0 ==> front[i - 1] == tokens[i - 1]);
        } else if i == front.len() {
            assert(tokens.take(i) =~= front);
        }
    }
}

/// A mark that a space is dropped before.
pub open spec fn is_mark(c: char) -> bool {
    c == ',' || c == '.' || c == ';' || c == ':' || c == '!' || c == '?'
}

/// Whether a mark stands in a text.
pub open spec fn marked(s: Seq<char>) -> bool {
    exists|i: int| 0 <= i < s.len() && is_mark(#[trigger] s[i])
}

/// A word that stays: one word, and no filler.
pub open spec fn stays(w: Seq<char>) -> bool {
    text::solid(w) && !filler(w)
}

/// Stripping twice is stripping once. What the standard library does to the case of characters has
/// no definition here, so that it is said of it that a text with a mark in it has no filler as its
/// lower case, and that the words that get a capital stay words and do not turn into fillers.
pub proof fn law_stripping_twice(s: Seq<char>)
    requires
        forall|core: Seq<char>| marked(core) ==> !filler_core(#[trigger] text::lowercase(core)),
        forall|i: int|
            becomes_initial(text::words(s), i) && !filler(text::words(s)[i]) ==> stays(
                capitalized(#[trigger] text::words(s)[i]),
            ),
        stripped(s) != s ==> stays(capitalized(text::words(tidied(recased(text::words(s))))[0])),
    ensures
        stripped(stripped(s)) == stripped(s),
{
    let tokens = text::words(s);
    let rest = recased(tokens);
    if stripped(s) != s {
        text::lemma_words_solid(s);
        lemma_recased_stay(tokens);
        assert forall|i: int| 0 <= i < rest.len() implies fit(#[trigger] rest[i], true) by {
            assert(stays(rest[i]));
        }
        lemma_tidied(rest, true);
        let glued = glued_all(rest);
        let left = cut_leftover(glued);
        let t = tidied(rest);
        assert(t == text::join(left, " "@));
        text::law_words_undo_join(left);
        assert(left.len() > 0);
        let out = left.update(0, capitalized(left[0]));
        assert forall|i: int| 0 <= i < out.len() implies stays(#[trigger] out[i]) by {
            if i > 0 {
                assert(out[i] == left[i]);
                assert(fit(left[i], true));
            }
        }
        if left.len() > 1 {
            text::lemma_join_front(left, " "@);
            text::lemma_join_front(out, " "@);
            assert(out.skip(1) =~= left.skip(1));
        }
        assert(text::solid(left[0]));
        assert(capitalized(t) =~= text::join(out, " "@));
        text::law_words_undo_join(out);
        law_no_filler_no_change(stripped(s));
    }
}

proof fn lemma_recased_stay(tokens: Seq<Seq<char>>)
    requires
        forall|i: int| 0 <= i < tokens.len() ==> text::solid(#[trigger] tokens[i]),
        forall|i: int|
            becomes_initial(tokens, i) && !filler(tokens[i]) ==> stays(
                capitalized(#[trigger] tokens[i]),
            ),
    ensures
        forall|i: int| 0 <= i < recased(tokens).len() ==> stays(#[trigger] recased(tokens)[i]),
    decreases tokens.len(),
{
    if tokens.len() > 0 {
        let front = tokens.drop_last();
        assert forall|i: int| 0 <= i < front.len() implies text::solid(#[trigger] front[i]) by {
            assert(front[i] == tokens[i]);
        }
        assert forall|i: int| becomes_initial(front, i) && !filler(front[i]) implies stays(
            capitalized(#[trigger] front[i]),
        ) by {
            assert(front.take(i) =~= tokens.take(i));
            assert(front[i] == tokens[i] && front[i - 1] == tokens[i - 1]);
            assert(becomes_initial(tokens, i));
        }
        lemma_recased_stay(front);
        let n = tokens.len() - 1;
        assert(tokens.last() == tokens[n]);
        assert(text::solid(tokens[n]));
        assert(becomes_initial(tokens, n) && !filler(tokens[n]) ==> stays(capitalized(tokens[n])));
        assert forall|i: int| 0 <= i < recased(tokens).len() implies stays(
            #[trigger] recased(tokens)[i],
        ) by {
            if i < recased(front).len() {
                assert(recased(tokens)[i] == recased(front)[i]);
            }
        }
    }
}

/// The tokens with each one that begins with `p` glued to the one before it.
spec fn glued(tokens: Seq<Seq<char>>, p: char) -> Seq<Seq<char>>
    decreases tokens.len(),
{
    if tokens.len() == 0 {
        Seq::empty()
    } else {
        let before = glued(tokens.drop_last(), p);
        if before.len() > 0 && tokens.last()[0] == p {
            before.drop_last().push(before.last() + tokens.last())
        } else {
            before.push(tokens.last())
        }
    }
}

/// The tokens with each one that begins with a mark glued to the one before it.
spec fn glued_all(tokens: Seq<Seq<char>>) -> Seq<Seq<char>> {
    glued(glued(glued(glued(glued(glued(tokens, ','), '.'), ';'), ':'), '!'), '?')
}

/// The tokens without what is left over at the start.
spec fn cut_leftover(tokens: Seq<Seq<char>>) -> Seq<Seq<char>>
    decreases tokens.len(),
{
    if tokens.len() == 0 {
        Seq::empty()
    } else {
        let n = text::span(tokens[0], leftover());
        if n >= tokens[0].len() {
            cut_leftover(tokens.skip(1))
        } else {
            seq![tokens[0].skip(n as int)] + tokens.skip(1)
        }
    }
}

/// One word, and where `strict` no filler.
spec fn fit(w: Seq<char>, strict: bool) -> bool {
    text::solid(w) && (strict ==> !filler(w))
}

proof fn lemma_tidied(tokens: Seq<Seq<char>>, strict: bool)
    requires
        strict ==> forall|core: Seq<char>|
            marked(core) ==> !filler_core(#[trigger] text::lowercase(core)),
        forall|i: int| 0 <= i < tokens.len() ==> fit(#[trigger] tokens[i], strict),
    ensures
        ({
            let left = cut_leftover(glued_all(tokens));
            &&& tidied(tokens) == text::join(left, " "@)
            &&& forall|i: int| 0 <= i < left.len() ==> text::solid(#[trigger] left[i])
            &&& forall|i: int| 1 <= i < left.len() ==> fit(#[trigger] left[i], strict)
        }),
{
    let t1 = glued(tokens, ',');
    let t2 = glued(t1, '.');
    let t3 = glued(t2, ';');
    let t4 = glued(t3, ':');
    let t5 = glued(t4, '!');
    let t6 = glued(t5, '?');
    lemma_glued(tokens, ',', strict);
    lemma_glued(t1, '.', strict);
    lemma_glued(t2, ';', strict);
    lemma_glued(t3, ':', strict);
    lemma_glued(t4, '!', strict);
    lemma_glued(t5, '?', strict);
    let left = cut_leftover(t6);
    lemma_cut_leftover(t6, strict);
    if left.len() > 0 {
        text::lemma_join_ends(left);
        assert(text::solid(left[0]) && text::solid(left.last()));
    }
    text::lemma_trimmed_already(text::join(left, " "@));
}

proof fn lemma_cut_leftover(tokens: Seq<Seq<char>>, strict: bool)
    requires
        forall|i: int| 0 <= i < tokens.len() ==> fit(#[trigger] tokens[i], strict),
    ensures
        ({
            let left = cut_leftover(tokens);
            &&& text::trim_start(text::join(tokens, " "@), leftover()) == text::join(left, " "@)
            &&& forall|i: int| 0 <= i < left.len() ==> text::solid(#[trigger] left[i])
            &&& forall|i: int| 1 <= i < left.len() ==> fit(#[trigger] left[i], strict)
        }),
    decreases tokens.len(),
{
    reveal_strlit(" ");
    let s = text::join(tokens, " "@);
    let left = cut_leftover(tokens);
    if tokens.len() == 0 {
        text::lemma_span_is(s, leftover(), 0);
        assert(s.skip(0) =~= s);
    } else {
        let first = tokens[0];
        let tail = tokens.skip(1);
        let n = text::span(first, leftover());
        assert(fit(first, strict));
        text::lemma_span(first, leftover());
        assert forall|i: int| 0 <= i < tail.len() implies fit(#[trigger] tail[i], strict) by {
            assert(tail[i] == tokens[i + 1]);
        }
        if tokens.len() > 1 {
            text::lemma_join_front(tokens, " "@);
        }
        let rest = if tokens.len() > 1 {
            " "@ + text::join(tail, " "@)
        } else {
            Seq::empty()
        };
        assert(s =~= first + rest);
        if n == first.len() {
            text::lemma_trim_start_over(first, rest, leftover());
            lemma_cut_leftover(tail, strict);
            if tokens.len() > 1 {
                text::lemma_span_is(" "@, leftover(), 1);
                text::lemma_trim_start_over(" "@, text::join(tail, " "@), leftover());
            } else {
                assert(rest == text::join(tail, " "@));
            }
        } else {
            text::lemma_trim_start_within(first, rest, leftover());
            assert(left[0] == first.skip(n as int));
            assert(left.skip(1) =~= tail);
            if left.len() > 1 {
                text::lemma_join_front(left, " "@);
            }
            assert(text::join(left, " "@) =~= first.skip(n as int) + rest);
            assert forall|i: int| 0 <= i < left.len() implies text::solid(#[trigger] left[i]) by {
                if i > 0 {
                    assert(left[i] == tail[i - 1]);
                }
            }
            assert forall|i: int| 1 <= i < left.len() implies fit(#[trigger] left[i], strict) by {
                assert(left[i] == tail[i - 1]);
            }
        }
    }
}

proof fn lemma_close_up_parts(a: Seq<char>, b: Seq<char>, p: char)
    requires
        a.len() > 0 && b.len() > 0 ==> !(a.last() == ' ' && b[0] == p),
    ensures
        close_up(a + b, p) == close_up(a, p) + close_up(b, p),
    decreases a.len(),
{
    let s = a + b;
    if a.len() == 0 {
        assert(s =~= b);
        assert(close_up(a, p) + close_up(b, p) =~= close_up(b, p));
    } else {
        assert(s.skip(1) =~= a.skip(1) + b);
        assert(s[0] == a[0]);
        if a.len() > 1 {
            assert(s[1] == a[1]);
            assert(a.skip(1).last() == a.last());
        } else if b.len() > 0 {
            assert(s[1] == b[0]);
        }
        lemma_close_up_parts(a.skip(1), b, p);
        assert(close_up(s, p) =~= close_up(a, p) + close_up(b, p));
    }
}

proof fn lemma_close_up_word(w: Seq<char>, p: char)
    requires
        forall|i: int| 0 <= i < w.len() ==> !text::is_white(#[trigger] w[i]),
    ensures
        close_up(w, p) == w,
    decreases w.len(),
{
    if w.len() > 0 {
        let tail = w.skip(1);
        assert forall|i: int| 0 <= i < tail.len() implies !text::is_white(#[trigger] tail[i]) by {
            assert(tail[i] == w[i + 1]);
        }
        lemma_close_up_word(tail, p);
        assert(w[0] != ' ');
        assert(seq![w[0]] + tail =~= w);
    } else {
        assert(close_up(w, p) =~= w);
    }
}

proof fn lemma_glued(tokens: Seq<Seq<char>>, p: char, strict: bool)
    requires
        is_mark(p),
        strict ==> forall|core: Seq<char>|
            marked(core) ==> !filler_core(#[trigger] text::lowercase(core)),
        forall|i: int| 0 <= i < tokens.len() ==> fit(#[trigger] tokens[i], strict),
    ensures
        close_up(text::join(tokens, " "@), p) == text::join(glued(tokens, p), " "@),
        forall|i: int| 0 <= i < glued(tokens, p).len() ==> fit(#[trigger] glued(tokens, p)[i], strict),
        tokens.len() > 0 ==> glued(tokens, p).len() > 0,
    decreases tokens.len(),
{
    reveal_strlit(" ");
    let all = glued(tokens, p);
    let s = text::join(tokens, " "@);
    if tokens.len() == 0 {
        assert(close_up(s, p) =~= text::join(all, " "@));
    } else {
        let front = tokens.drop_last();
        let w = tokens.last();
        assert(w == tokens[tokens.len() - 1]);
        assert(fit(w, strict));
        assert forall|i: int| 0 <= i < front.len() implies fit(#[trigger] front[i], strict) by {
            assert(front[i] == tokens[i]);
        }
        lemma_glued(front, p, strict);
        let before = glued(front, p);
        let j = text::join(before, " "@);
        lemma_close_up_word(w, p);
        if tokens.len() == 1 {
            assert(front =~= Seq::<Seq<char>>::empty());
            assert(all =~= seq![w]);
            assert(text::join(all, " "@) == w);
        } else {
            let head = text::join(front, " "@);
            let tail = " "@ + w;
            assert(s =~= head + tail);
            text::lemma_join_ends(front);
            assert(fit(front.last(), strict));
            lemma_close_up_parts(head, tail, p);
            assert(tail.skip(1) =~= w);
            assert(fit(before.last(), strict));
            if w[0] == p {
                assert(close_up(tail, p) == w);
                lemma_glue(before.last(), w, strict);
                assert(all.drop_last() =~= before.drop_last());
                assert(text::join(all, " "@) =~= j + w);
            } else {
                assert(close_up(tail, p) =~= tail);
                assert(all.drop_last() =~= before);
                assert(text::join(all, " "@) =~= j + tail);
            }
        }
        assert forall|i: int| 0 <= i < all.len() implies fit(#[trigger] all[i], strict) by {
            if i < all.len() - 1 {
                assert(all[i] == before[i]);
            }
        }
    }
}

/// A mark within makes no filler word of two words that are none.
proof fn lemma_glue(a: Seq<char>, b: Seq<char>, strict: bool)
    requires
        strict ==> forall|core: Seq<char>|
            marked(core) ==> !filler_core(#[trigger] text::lowercase(core)),
        fit(a, strict),
        fit(b, strict),
        is_mark(b[0]),
    ensures
        fit(a + b, strict),
{
    let p = outer();
    text::lemma_span(a, p);
    text::lemma_span(b, p);
    text::lemma_rspan(b, p);
    if text::span(a, p) == a.len() {
        text::lemma_trim_start_over(a, b, p);
    } else {
        text::lemma_trim_start_within(a, b, p);
        let front = text::trim_start(a, p);
        if text::rspan(b, p) == b.len() {
            text::lemma_trim_end_over(front, b, p);
        } else {
            text::lemma_trim_end_within(front, b, p);
            let core = bare(a + b);
            assert(core[front.len() as int] == b[0]);
            assert(marked(core));
            assert(strict ==> !filler_core(text::lowercase(core)));
        }
    }
    assert forall|i: int| 0 <= i < (a + b).len() implies !text::is_white(#[trigger] (a + b)[i]) by {
        if i < a.len() {
            assert((a + b)[i] == a[i]);
        } else {
            assert((a + b)[i] == b[i - a.len()]);
        }
    }
}

/// A token is a filler word exactly where what is between its outer characters is, in lower case,
/// one of the ten that are listed, and these are the ten: no other word is ever dropped.
pub proof fn law_ten_words_are_fillers(token: Seq<char>)
    ensures
        filler(token) <==> exists|i: int|
            0 <= i < FILLERS@.len() && (#[trigger] FILLERS@[i])@ == text::lowercase(bare(token)),
        ({
            let core = text::lowercase(bare(token));
            filler(token) <==> core == "um"@ || core == "umm"@ || core == "uh"@ || core == "uhh"@
                || core == "uh-huh"@ || core == "er"@ || core == "erm"@ || core == "hmm"@ || core
                == "mhm"@ || core == "mm-hmm"@
        }),
{
    assert(FILLERS@[0]@ == "um"@ && FILLERS@[1]@ == "umm"@ && FILLERS@[2]@ == "uh"@ && FILLERS@[3]@
        == "uhh"@ && FILLERS@[4]@ == "uh-huh"@ && FILLERS@[5]@ == "er"@ && FILLERS@[6]@ == "erm"@
        && FILLERS@[7]@ == "hmm"@ && FILLERS@[8]@ == "mhm"@ && FILLERS@[9]@ == "mm-hmm"@);
}

/// A text is untouched, whatever its spacing, where the core of none of its words is one of the ten.
pub proof fn law_real_words_are_never_eaten(s: Seq<char>)
    requires
        forall|i: int, k: int|
            0 <= i < text::words(s).len() && 0 <= k < FILLERS@.len() ==> (#[trigger] FILLERS@[k])@
                != text::lowercase(bare(#[trigger] text::words(s)[i])),
    ensures
        stripped(s) == s,
{
    assert forall|i: int| 0 <= i < text::words(s).len() implies !filler(
        #[trigger] text::words(s)[i],
    ) by {
        law_ten_words_are_fillers(text::words(s)[i]);
    }
    law_no_filler_no_change(s);
}

/// The core of a token lies between characters that are neither letters, digits nor hyphens, and
/// itself begins and ends with one of these.
pub proof fn law_core_is_what_is_between(token: Seq<char>)
    ensures
        exists|a: int, b: int|
            {
                &&& 0 <= a <= b <= token.len()
                &&& bare(token) == #[trigger] token.subrange(a, b)
                &&& forall|i: int|
                    0 <= i < token.len() && (i < a || i >= b) ==> !text::alphanumeric(
                        #[trigger] token[i],
                    ) && token[i] != '-'
                &&& a < b ==> (text::alphanumeric(token[a]) || token[a] == '-') && (
                text::alphanumeric(token[b - 1]) || token[b - 1] == '-')
            },
{
    let p = outer();
    let a = text::span(token, p) as int;
    text::lemma_span(token, p);
    let tail = text::trim_start(token, p);
    let n = text::rspan(tail, p) as int;
    text::lemma_rspan(tail, p);
    let b = token.len() - n;
    assert(bare(token) =~= token.subrange(a, b));
    assert forall|i: int| 0 <= i < token.len() && (i < a || i >= b) implies !text::alphanumeric(
        #[trigger] token[i],
    ) && token[i] != '-' by {
        if i < a {
            assert(p(token[i]));
        } else {
            assert(p(tail[i - a]));
        }
    }
    if a < b {
        assert(token[a] == tail[0]);
        assert(!p(token[a]));
        assert(!p(tail[tail.len() - n - 1]));
    }
}

/// The characters of a text that are not white.
pub open spec fn ink(s: Seq<char>) -> Seq<char>
    decreases s.len(),
{
    if s.len() == 0 {
        Seq::empty()
    } else if text::is_white(s.last()) {
        ink(s.drop_last())
    } else {
        ink(s.drop_last()).push(s.last())
    }
}

proof fn lemma_ink_add(a: Seq<char>, b: Seq<char>)
    ensures
        ink(a + b) == ink(a) + ink(b),
    decreases b.len(),
{
    if b.len() == 0 {
        assert(a + b =~= a);
        assert(ink(a) + ink(b) =~= ink(a));
    } else {
        lemma_ink_add(a, b.drop_last());
        assert((a + b).drop_last() =~= a + b.drop_last());
        assert(ink(a + b) =~= ink(a) + ink(b));
    }
}

proof fn lemma_ink_solid(s: Seq<char>)
    requires
        forall|i: int| 0 <= i < s.len() ==> !text::is_white(#[trigger] s[i]),
    ensures
        ink(s) == s,
    decreases s.len(),
{
    if s.len() > 0 {
        let t = s.drop_last();
        assert forall|i: int| 0 <= i < t.len() implies !text::is_white(#[trigger] t[i]) by {
            assert(t[i] == s[i]);
        }
        lemma_ink_solid(t);
        assert(!text::is_white(s[s.len() - 1]));
        assert(t.push(s.last()) =~= s);
    } else {
        assert(ink(s) =~= s);
    }
}

proof fn lemma_ink_join(tokens: Seq<Seq<char>>)
    requires
        forall|i: int| 0 <= i < tokens.len() ==> text::solid(#[trigger] tokens[i]),
    ensures
        ink(text::join(tokens, " "@)) == tokens.flatten(),
    decreases tokens.len(),
{
    reveal_strlit(" ");
    tokens.lemma_flatten_and_flatten_alt_are_equivalent();
    if tokens.len() == 0 {
        assert(tokens.flatten() =~= Seq::empty());
    } else {
        let front = tokens.drop_last();
        let w = tokens.last();
        assert(w == tokens[tokens.len() - 1]);
        assert forall|i: int| 0 <= i < front.len() implies text::solid(#[trigger] front[i]) by {
            assert(front[i] == tokens[i]);
        }
        lemma_ink_join(front);
        front.lemma_flatten_and_flatten_alt_are_equivalent();
        lemma_ink_solid(w);
        assert(tokens.flatten() == front.flatten() + w);
        if tokens.len() == 1 {
            assert(front =~= Seq::empty());
            assert(front.flatten() =~= Seq::empty());
            assert(tokens.flatten() =~= w);
        } else {
            let head = text::join(front, " "@);
            lemma_ink_add(head + " "@, w);
            assert((head + " "@).drop_last() =~= head);
            assert(ink(head + " "@) == ink(head));
        }
    }
}

proof fn lemma_glued_starts(tokens: Seq<Seq<char>>, p: char, q: char)
    requires
        forall|i: int| 0 <= i < tokens.len() ==> text::solid(#[trigger] tokens[i]),
    ensures
        tokens.len() > 0 ==> glued(tokens, p).len() > 0,
        glued(tokens, p).flatten() == tokens.flatten(),
        forall|i: int| 0 <= i < glued(tokens, p).len() ==> (#[trigger] glued(tokens, p)[i]).len() > 0,
        forall|i: int| 0 < i < glued(tokens, p).len() ==> (#[trigger] glued(tokens, p)[i])[0] != p,
        (forall|i: int| 0 < i < tokens.len() ==> (#[trigger] tokens[i])[0] != q) ==> (forall|i: int|
            0 < i < glued(tokens, p).len() ==> (#[trigger] glued(tokens, p)[i])[0] != q),
        (forall|i: int| 0 < i < tokens.len() ==> (#[trigger] tokens[i])[0] != p) ==> glued(tokens, p)
            == tokens,
    decreases tokens.len(),
{
    let all = glued(tokens, p);
    tokens.lemma_flatten_and_flatten_alt_are_equivalent();
    all.lemma_flatten_and_flatten_alt_are_equivalent();
    if tokens.len() == 0 {
        assert(all =~= tokens);
    } else {
        let front = tokens.drop_last();
        let w = tokens.last();
        let last = tokens.len() - 1;
        assert(w == tokens[last]);
        assert(text::solid(tokens[last]));
        assert forall|i: int| 0 <= i < front.len() implies text::solid(#[trigger] front[i]) by {
            assert(front[i] == tokens[i]);
        }
        lemma_glued_starts(front, p, q);
        let before = glued(front, p);
        front.lemma_flatten_and_flatten_alt_are_equivalent();
        before.lemma_flatten_and_flatten_alt_are_equivalent();
        assert(front.len() == 0 ==> before.len() == 0);
        if before.len() > 0 && w[0] == p {
            assert(all.drop_last() =~= before.drop_last());
            assert(all.flatten() =~= tokens.flatten());
            assert(all.last()[0] == before.last()[0]);
            assert(before[before.len() - 1].len() > 0);
            assert forall|i: int| 0 < i < all.len() implies (#[trigger] all[i])[0] != p by {
                assert(before[i][0] != p);
            }
        } else {
            assert(all.drop_last() =~= before);
            assert(all.flatten() =~= tokens.flatten());
            assert forall|i: int| 0 < i < all.len() implies (#[trigger] all[i])[0] != p by {
                if i < before.len() {
                    assert(all[i] == before[i]);
                }
            }
        }
        if forall|i: int| 0 < i < tokens.len() ==> (#[trigger] tokens[i])[0] != q {
            assert forall|i: int| 0 < i < front.len() implies (#[trigger] front[i])[0] != q by {
                assert(front[i] == tokens[i]);
            }
            assert forall|i: int| 0 < i < all.len() implies (#[trigger] all[i])[0] != q by {
                if i < before.len() {
                    assert(before[i][0] != q);
                    if i < all.len() - 1 || all.len() > before.len() {
                        assert(all[i] == before[i]);
                    }
                } else {
                    assert(tokens[last][0] != q);
                }
            }
        }
        if forall|i: int| 0 < i < tokens.len() ==> (#[trigger] tokens[i])[0] != p {
            assert forall|i: int| 0 < i < front.len() implies (#[trigger] front[i])[0] != p by {
                assert(front[i] == tokens[i]);
            }
            if last > 0 {
                assert(tokens[last][0] != p);
            }
            assert(all =~= tokens);
        }
    }
}

/// The remaining words become a sentence and stay whole: where none begins with punctuation, they
/// stand there with one space between two of them. In every case nothing is lost but spaces and the
/// punctuation at the start; and what spaces there are stand alone, between two words, and before no
/// mark.
pub proof fn law_tidying_keeps_the_words(tokens: Seq<Seq<char>>)
    requires
        forall|i: int| 0 <= i < tokens.len() ==> text::solid(#[trigger] tokens[i]),
    ensures
        (forall|i: int| 0 <= i < tokens.len() ==> !is_mark((#[trigger] tokens[i])[0])) ==> tidied(
            tokens,
        ) == text::join(tokens, " "@),
        exists|lost: Seq<char>|
            tokens.flatten() == #[trigger] (lost + ink(tidied(tokens))) && forall|i: int|
                0 <= i < lost.len() ==> #[trigger] lost[i] == ',' || lost[i] == '.' || lost[i] == ';'
                    || lost[i] == ':',
        forall|i: int|
            0 <= i < tidied(tokens).len() && text::is_white(#[trigger] tidied(tokens)[i]) ==> {
                &&& tidied(tokens)[i] == ' '
                &&& 0 < i < tidied(tokens).len() - 1
                &&& !text::is_white(tidied(tokens)[i + 1])
                &&& !is_mark(tidied(tokens)[i + 1])
            },
{
    assert forall|i: int| 0 <= i < tokens.len() implies fit(#[trigger] tokens[i], false) by {
        assert(text::solid(tokens[i]));
    }
    lemma_tidied(tokens, false);
    let all = glued_all(tokens);
    let left = cut_leftover(all);
    lemma_all_glued(tokens);
    lemma_cut_parts(all);
    lemma_ink_join(left);
    let lost = choose|lost: Seq<char>|
        all.flatten() == #[trigger] (lost + left.flatten()) && forall|i: int|
            0 <= i < lost.len() ==> #[trigger] lost[i] == ',' || lost[i] == '.' || lost[i] == ';'
                || lost[i] == ':';
    assert(tokens.flatten() == lost + ink(tidied(tokens)));
    lemma_spaces(left);
    if forall|i: int| 0 <= i < tokens.len() ==> !is_mark((#[trigger] tokens[i])[0]) {
        assert(all == tokens);
        if tokens.len() > 0 {
            let first = tokens[0];
            assert(text::solid(first) && !is_mark(first[0]));
            text::lemma_span_is(first, leftover(), 0);
            assert(first.skip(0) =~= first);
            assert(left =~= tokens);
        }
    }
}

proof fn lemma_all_glued(tokens: Seq<Seq<char>>)
    requires
        forall|i: int| 0 <= i < tokens.len() ==> text::solid(#[trigger] tokens[i]),
    ensures
        glued_all(tokens).flatten() == tokens.flatten(),
        forall|i: int| 0 <= i < glued_all(tokens).len() ==> text::solid(#[trigger] glued_all(tokens)[i]),
        forall|i: int|
            0 < i < glued_all(tokens).len() ==> !is_mark((#[trigger] glued_all(tokens)[i])[0]),
        (forall|i: int| 0 <= i < tokens.len() ==> !is_mark((#[trigger] tokens[i])[0])) ==> glued_all(
            tokens,
        ) == tokens,
{
    let t1 = glued(tokens, ',');
    let t2 = glued(t1, '.');
    let t3 = glued(t2, ';');
    let t4 = glued(t3, ':');
    let t5 = glued(t4, '!');
    let t6 = glued(t5, '?');
    lemma_glued_solid(tokens, ',');
    lemma_glued_solid(t1, '.');
    lemma_glued_solid(t2, ';');
    lemma_glued_solid(t3, ':');
    lemma_glued_solid(t4, '!');
    lemma_glued_solid(t5, '?');
    lemma_glued_starts(tokens, ',', ',');
    lemma_glued_starts(t1, '.', ',');
    lemma_glued_starts(t2, ';', ',');
    lemma_glued_starts(t2, ';', '.');
    lemma_glued_starts(t3, ':', ',');
    lemma_glued_starts(t3, ':', '.');
    lemma_glued_starts(t3, ':', ';');
    lemma_glued_starts(t4, '!', ',');
    lemma_glued_starts(t4, '!', '.');
    lemma_glued_starts(t4, '!', ';');
    lemma_glued_starts(t4, '!', ':');
    lemma_glued_starts(t5, '?', ',');
    lemma_glued_starts(t5, '?', '.');
    lemma_glued_starts(t5, '?', ';');
    lemma_glued_starts(t5, '?', ':');
    lemma_glued_starts(t5, '?', '!');
    if forall|i: int| 0 <= i < tokens.len() ==> !is_mark((#[trigger] tokens[i])[0]) {
        assert forall|i: int| 0 < i < tokens.len() implies (#[trigger] tokens[i])[0] != ','
            && tokens[i][0] != '.' && tokens[i][0] != ';' && tokens[i][0] != ':' && tokens[i][0]
            != '!' && tokens[i][0] != '?' by {
            assert(!is_mark(tokens[i][0]));
        }
        assert(t1 == tokens);
        assert(t2 == tokens);
        assert(t3 == tokens);
        assert(t4 == tokens);
        assert(t5 == tokens);
        assert(t6 == tokens);
    }
}

proof fn lemma_glued_solid(tokens: Seq<Seq<char>>, p: char)
    requires
        is_mark(p),
        forall|i: int| 0 <= i < tokens.len() ==> text::solid(#[trigger] tokens[i]),
    ensures
        forall|i: int|
            0 <= i < glued(tokens, p).len() ==> text::solid(#[trigger] glued(tokens, p)[i]),
{
    assert forall|i: int| 0 <= i < tokens.len() implies fit(#[trigger] tokens[i], false) by {
        assert(text::solid(tokens[i]));
    }
    lemma_glued(tokens, p, false);
    assert forall|i: int| 0 <= i < glued(tokens, p).len() implies text::solid(
        #[trigger] glued(tokens, p)[i],
    ) by {
        assert(fit(glued(tokens, p)[i], false));
    }
}

proof fn lemma_cut_parts(tokens: Seq<Seq<char>>)
    requires
        forall|i: int| 0 <= i < tokens.len() ==> text::solid(#[trigger] tokens[i]),
        forall|i: int| 0 < i < tokens.len() ==> !is_mark((#[trigger] tokens[i])[0]),
    ensures
        exists|lost: Seq<char>|
            tokens.flatten() == #[trigger] (lost + cut_leftover(tokens).flatten()) && forall|i: int|
                0 <= i < lost.len() ==> #[trigger] lost[i] == ',' || lost[i] == '.' || lost[i] == ';'
                    || lost[i] == ':',
        forall|i: int|
            0 < i < cut_leftover(tokens).len() ==> !is_mark((#[trigger] cut_leftover(tokens)[i])[0]),
    decreases tokens.len(),
{
    let left = cut_leftover(tokens);
    if tokens.len() == 0 {
        assert(left =~= tokens);
        assert(tokens.flatten() =~= Seq::<char>::empty() + left.flatten());
    } else {
        let first = tokens[0];
        let tail = tokens.skip(1);
        let n = text::span(first, leftover()) as int;
        text::lemma_span(first, leftover());
        assert(text::solid(first));
        assert(tokens.drop_first() =~= tail);
        assert(tokens.first() == first);
        assert(tokens.flatten() == first + tail.flatten());
        assert forall|i: int| 0 <= i < tail.len() implies text::solid(#[trigger] tail[i]) by {
            assert(tail[i] == tokens[i + 1]);
        }
        assert forall|i: int| 0 < i < tail.len() implies !is_mark((#[trigger] tail[i])[0]) by {
            assert(tail[i] == tokens[i + 1]);
        }
        assert forall|i: int| 0 <= i < n implies #[trigger] first[i] == ',' || first[i] == '.'
            || first[i] == ';' || first[i] == ':' by {
            assert(leftover()(first[i]));
            assert(!text::is_white(first[i]));
        }
        if n == first.len() {
            lemma_cut_parts(tail);
            let lost = choose|lost: Seq<char>|
                tail.flatten() == #[trigger] (lost + left.flatten()) && forall|i: int|
                    0 <= i < lost.len() ==> #[trigger] lost[i] == ',' || lost[i] == '.' || lost[i]
                        == ';' || lost[i] == ':';
            let more = first + lost;
            assert(tokens.flatten() =~= more + left.flatten());
            assert forall|i: int| 0 <= i < more.len() implies #[trigger] more[i] == ',' || more[i]
                == '.' || more[i] == ';' || more[i] == ':' by {
                if i < first.len() {
                    assert(more[i] == first[i]);
                } else {
                    assert(more[i] == lost[i - first.len()]);
                }
            }
        } else {
            let lost = first.take(n);
            assert(left[0] == first.skip(n));
            assert(left.drop_first() =~= tail);
            assert(left.first() == first.skip(n));
            assert(left.flatten() == first.skip(n) + tail.flatten());
            assert(tokens.flatten() =~= lost + left.flatten());
            assert forall|i: int| 0 <= i < lost.len() implies #[trigger] lost[i] == ',' || lost[i]
                == '.' || lost[i] == ';' || lost[i] == ':' by {
                assert(lost[i] == first[i]);
            }
            assert forall|i: int| 0 < i < left.len() implies !is_mark((#[trigger] left[i])[0]) by {
                assert(left[i] == tokens[i]);
            }
        }
    }
}

proof fn lemma_spaces(tokens: Seq<Seq<char>>)
    requires
        forall|i: int| 0 <= i < tokens.len() ==> text::solid(#[trigger] tokens[i]),
        forall|i: int| 0 < i < tokens.len() ==> !is_mark((#[trigger] tokens[i])[0]),
    ensures
        ({
            let s = text::join(tokens, " "@);
            forall|i: int|
                0 <= i < s.len() && text::is_white(#[trigger] s[i]) ==> s[i] == ' ' && 0 < i < s.len()
                    - 1 && !text::is_white(s[i + 1]) && !is_mark(s[i + 1])
        }),
    decreases tokens.len(),
{
    reveal_strlit(" ");
    let s = text::join(tokens, " "@);
    if tokens.len() > 0 {
        let front = tokens.drop_last();
        let w = tokens.last();
        assert(w == tokens[tokens.len() - 1]);
        assert(text::solid(tokens[tokens.len() - 1]));
        if tokens.len() == 1 {
            assert(s == w);
        } else {
            assert forall|i: int| 0 <= i < front.len() implies text::solid(#[trigger] front[i]) by {
                assert(front[i] == tokens[i]);
            }
            assert forall|i: int| 0 < i < front.len() implies !is_mark((#[trigger] front[i])[0]) by {
                assert(front[i] == tokens[i]);
            }
            lemma_spaces(front);
            text::lemma_join_ends(front);
            let head = text::join(front, " "@);
            let n = head.len() as int;
            assert(!is_mark(tokens[tokens.len() - 1][0]));
            assert forall|i: int| 0 <= i < s.len() && text::is_white(#[trigger] s[i]) implies s[i]
                == ' ' && 0 < i < s.len() - 1 && !text::is_white(s[i + 1]) && !is_mark(
                s[i + 1],
            ) by {
                if i < n {
                    assert(s[i] == head[i]);
                    assert(i + 1 < n);
                    assert(s[i + 1] == head[i + 1]);
                } else if i == n {
                    assert(s[i + 1] == w[0]);
                } else {
                    assert(s[i] == w[i - n - 1]);
                }
            }
        }
    }
}

/// Where a word goes and another stays, the result is the tidied rest with its first character in
/// upper case, and that changes nothing else.
pub proof fn law_result_begins_with_a_capital(s: Seq<char>)
    requires
        stripped(s) != s,
    ensures
        exists|i: int| 0 <= i < text::words(s).len() && filler(#[trigger] text::words(s)[i]),
        ({
            let t = tidied(recased(text::words(s)));
            t.len() > 0 && stripped(s) == text::uppercase(t[0]) + t.skip(1)
        }),
{
    if forall|i: int| 0 <= i < text::words(s).len() ==> !filler(#[trigger] text::words(s)[i]) {
        law_no_filler_no_change(s);
    }
}

/// A text is left alone only where no word of it is a filler or nothing else would remain.
pub proof fn law_fillers_do_go(s: Seq<char>)
    requires
        exists|i: int| 0 <= i < text::words(s).len() && filler(#[trigger] text::words(s)[i]),
        tidied(recased(text::words(s))).len() > 0,
    ensures
        stripped(s) == capitalized(tidied(recased(text::words(s)))),
{
    let tokens = text::words(s);
    law_only_fillers_go(tokens);
    lemma_recased(tokens, 0);
    let i = choose|i: int| 0 <= i < text::words(s).len() && filler(#[trigger] text::words(s)[i]);
    assert(kept(tokens).len() != tokens.len());
}

/// A word becomes the first of its sentence exactly where fillers stood before it and the word before
/// those ended a sentence, with a full stop, an exclamation mark or a question mark. Where only
/// fillers stood before it, it is the first of the text instead.
pub proof fn law_dropped_openings_are_noticed(tokens: Seq<Seq<char>>, j: int, i: int)
    requires
        -1 <= j < i < tokens.len(),
        j >= 0 ==> !filler(tokens[j]),
        forall|k: int| j < k < i ==> filler(#[trigger] tokens[k]),
    ensures
        j >= 0 ==> (becomes_initial(tokens, i) <==> j + 1 < i && tokens[j].len() > 0 && (
        tokens[j].last() == '.' || tokens[j].last() == '!' || tokens[j].last() == '?')),
        j < 0 ==> !becomes_initial(tokens, i),
{
    lemma_last_kept(tokens, j, i);
    if i > 0 && j + 1 < i {
        assert(filler(tokens[i - 1]));
    }
}

proof fn lemma_last_kept(tokens: Seq<Seq<char>>, j: int, i: int)
    requires
        -1 <= j < i <= tokens.len(),
        j >= 0 ==> !filler(tokens[j]),
        forall|k: int| j < k < i ==> filler(#[trigger] tokens[k]),
    ensures
        j >= 0 ==> kept(tokens.take(i)).len() > 0 && kept(tokens.take(i)).last() == tokens[j],
        j < 0 ==> kept(tokens.take(i)).len() == 0,
    decreases i,
{
    let t = tokens.take(i);
    if i > 0 {
        assert(t.drop_last() =~= tokens.take(i - 1));
        assert(t.last() == tokens[i - 1]);
        if j < i - 1 {
            assert(filler(tokens[i - 1]));
            lemma_last_kept(tokens, j, i - 1);
        }
    }
}

} // verus!
