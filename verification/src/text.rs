//! Text primitives. A string is modelled by the sequence of its characters; every function here
//! is stated over that sequence.

use vstd::prelude::*;
use vstd::utf8::*;

verus! {

/// `String::push` appends one character to the end of the string.
pub assume_specification[ String::push ](s: &mut String, c: char)
    ensures
        final(s)@ == old(s)@.push(c),
;

/// The characters of a list of strings.
pub open spec fn views(v: Seq<String>) -> Seq<Seq<char>> {
    Seq::new(v.len(), |i: int| v[i]@)
}

/// The characters of a list of borrowed strings.
pub open spec fn strs(v: Seq<&str>) -> Seq<Seq<char>> {
    Seq::new(v.len(), |i: int| v[i]@)
}

/// The Unicode `White_Space` property.
pub open spec fn is_white(c: char) -> bool {
    let u = c as u32;
    ||| 0x09 <= u <= 0x0d
    ||| u == 0x20
    ||| u == 0x85
    ||| u == 0xa0
    ||| u == 0x1680
    ||| 0x2000 <= u <= 0x200a
    ||| u == 0x2028
    ||| u == 0x2029
    ||| u == 0x202f
    ||| u == 0x205f
    ||| u == 0x3000
}

/// Whether `c` is white space.
pub fn is_whitespace(c: char) -> (r: bool)
    ensures
        r == is_white(c),
{
    let u: u32 = c as u32;
    (0x09 <= u && u <= 0x0d) || u == 0x20 || u == 0x85 || u == 0xa0 || u == 0x1680 || (0x2000 <= u
        && u <= 0x200a) || u == 0x2028 || u == 0x2029 || u == 0x202f || u == 0x205f || u == 0x3000
}

/// Whether two strings hold the same characters.
pub fn same(a: &str, b: &str) -> (r: bool)
    ensures
        r == (a@ == b@),
{
    let x: &[u8] = a.as_bytes();
    let y: &[u8] = b.as_bytes();
    proof {
        encode_utf8_decode_utf8(a@);
        encode_utf8_decode_utf8(b@);
    }
    if x.len() != y.len() {
        return false;
    }
    let mut i: usize = 0;
    while i < x.len()
        invariant
            i <= x.len(),
            x.len() == y.len(),
            x@ == encode_utf8(a@),
            y@ == encode_utf8(b@),
            forall|j: int| 0 <= j < i ==> x@[j] == y@[j],
        decreases x.len() - i,
    {
        if x[i] != y[i] {
            return false;
        }
        i += 1;
    }
    assert(x@ =~= y@);
    true
}

/// Whether `list` holds the string `s`.
pub open spec fn holds(list: Seq<Seq<char>>, s: Seq<char>) -> bool {
    exists|i: int| 0 <= i < list.len() && #[trigger] list[i] == s
}

/// Whether `list` holds the string `s`.
pub fn contains(list: &[String], s: &str) -> (r: bool)
    ensures
        r == holds(views(list@), s@),
{
    let mut i: usize = 0;
    while i < list.len()
        invariant
            i <= list.len(),
            forall|j: int| 0 <= j < i ==> #[trigger] views(list@)[j] != s@,
        decreases list.len() - i,
    {
        if same(list[i].as_str(), s) {
            assert(views(list@)[i as int] == s@);
            return true;
        }
        i += 1;
    }
    false
}

/// Whether a fixed table holds the string `s`.
pub open spec fn listed(table: Seq<&'static str>, s: Seq<char>) -> bool {
    exists|i: int| 0 <= i < table.len() && (#[trigger] table[i])@ == s
}

/// Whether a fixed table holds the string `s`.
pub fn is_listed(table: &[&'static str], s: &str) -> (r: bool)
    ensures
        r == listed(table@, s@),
{
    let mut i: usize = 0;
    while i < table.len()
        invariant
            i <= table.len(),
            forall|j: int| 0 <= j < i ==> (#[trigger] table@[j])@ != s@,
        decreases table.len() - i,
    {
        if same(table[i], s) {
            return true;
        }
        i += 1;
    }
    false
}

/// The characters of `s`.
pub fn to_chars(s: &str) -> (v: Vec<char>)
    ensures
        v@ == s@,
{
    let mut v: Vec<char> = Vec::new();
    for c in it: s.chars()
        invariant
            it.seq() == s@,
            v@ == s@.take(it.index()),
    {
        v.push(c);
        assert(s@.take(it.index() + 1) == s@.take(it.index()).push(c));
    }
    assert(s@.take(s@.len() as int) == s@);
    v
}

/// The string made of the characters `v[from..to]`.
pub fn from_chars(v: &[char], from: usize, to: usize) -> (s: String)
    requires
        from <= to <= v@.len(),
    ensures
        s@ == v@.subrange(from as int, to as int),
{
    let mut s: String = String::new();
    let mut i: usize = from;
    while i < to
        invariant
            from <= i <= to <= v@.len(),
            s@ == v@.subrange(from as int, i as int),
        decreases to - i,
    {
        s.push(v[i]);
        assert(v@.subrange(from as int, i + 1) == v@.subrange(from as int, i as int).push(
            v@[i as int],
        ));
        i += 1;
    }
    s
}

/// Copies a list of strings.
pub fn copy_list(v: &[String]) -> (r: Vec<String>)
    ensures
        views(r@) == views(v@),
{
    let mut r: Vec<String> = Vec::new();
    let mut i: usize = 0;
    while i < v.len()
        invariant
            i <= v.len(),
            r@.len() == i,
            forall|j: int| 0 <= j < i ==> #[trigger] r@[j]@ == v@[j]@,
        decreases v.len() - i,
    {
        r.push(v[i].clone());
        i += 1;
    }
    assert(views(r@) =~= views(v@));
    r
}

/// Borrows the strings of a list.
pub fn borrow_list(v: &[String]) -> (r: Vec<&str>)
    ensures
        strs(r@) == views(v@),
{
    let mut r: Vec<&str> = Vec::new();
    let mut i: usize = 0;
    while i < v.len()
        invariant
            i <= v.len(),
            r@.len() == i,
            forall|j: int| 0 <= j < i ==> #[trigger] r@[j]@ == v@[j]@,
        decreases v.len() - i,
    {
        r.push(v[i].as_str());
        i += 1;
    }
    assert(strs(r@) =~= views(v@));
    r
}

/// Whether `s` begins with `prefix`.
pub fn starts_with(s: &str, prefix: &str) -> (r: bool)
    ensures
        r == prefix@.is_prefix_of(s@),
{
    let v: Vec<char> = to_chars(s);
    let p: Vec<char> = to_chars(prefix);
    if p.len() > v.len() {
        return false;
    }
    let mut i: usize = 0;
    while i < p.len()
        invariant
            v@ == s@,
            p@ == prefix@,
            i <= p@.len() <= v@.len(),
            forall|j: int| 0 <= j < i ==> v@[j] == #[trigger] p@[j],
        decreases p.len() - i,
    {
        if v[i] != p[i] {
            assert(s@.subrange(0, p@.len() as int)[i as int] != p@[i as int]);
            return false;
        }
        i += 1;
    }
    assert(s@.subrange(0, p@.len() as int) =~= p@);
    true
}

/// Whether `needle` stands in `s` at position `i`.
pub open spec fn occurs_at(s: Seq<char>, needle: Seq<char>, i: int) -> bool {
    &&& 0 <= i <= s.len() - needle.len()
    &&& s.subrange(i, i + needle.len()) == needle
}

/// Whether `needle` stands somewhere in `s`.
pub open spec fn occurs(s: Seq<char>, needle: Seq<char>) -> bool {
    exists|i: int| occurs_at(s, needle, i)
}

/// Whether `needle` stands somewhere in `s`.
pub fn contains_str(s: &str, needle: &str) -> (r: bool)
    ensures
        r == occurs(s@, needle@),
{
    let h: Vec<char> = to_chars(s);
    let n: Vec<char> = to_chars(needle);
    if n.len() > h.len() {
        return false;
    }
    let mut i: usize = 0;
    while i <= h.len() - n.len()
        invariant
            h@ == s@,
            n@ == needle@,
            n@.len() <= h@.len(),
            i <= h@.len() - n@.len() + 1,
            forall|j: int| 0 <= j < i ==> !(#[trigger] occurs_at(s@, needle@, j)),
        decreases h.len() - i,
    {
        let mut k: usize = 0;
        while k < n.len() && h[i + k] == n[k]
            invariant
                i + n@.len() <= h.len(),
                k <= n@.len(),
                forall|j: int| 0 <= j < k ==> h@[i + j] == #[trigger] n@[j],
            decreases n.len() - k,
        {
            k += 1;
        }
        if k == n.len() {
            assert(s@.subrange(i as int, i + n@.len()) =~= needle@);
            assert(occurs_at(s@, needle@, i as int));
            return true;
        }
        assert(s@.subrange(i as int, i + n@.len())[k as int] != needle@[k as int]);
        i += 1;
    }
    false
}

// ---------------------------------------------------------------------------------------------
// Joining and splitting

/// `parts` written one after the other with `sep` between two neighbours.
pub open spec fn join(parts: Seq<Seq<char>>, sep: Seq<char>) -> Seq<char>
    decreases parts.len(),
{
    if parts.len() == 0 {
        Seq::empty()
    } else if parts.len() == 1 {
        parts[0]
    } else {
        join(parts.drop_last(), sep) + sep + parts.last()
    }
}

/// Joins `parts` with `sep` between two neighbours.
pub fn join_list(parts: &[String], sep: &str) -> (r: String)
    ensures
        r@ == join(views(parts@), sep@),
{
    let mut r: String = String::new();
    let mut i: usize = 0;
    assert(views(parts@).take(0) =~= Seq::<Seq<char>>::empty());
    while i < parts.len()
        invariant
            i <= parts.len(),
            r@ == join(views(parts@).take(i as int), sep@),
        decreases parts.len() - i,
    {
        proof {
            let next = views(parts@).take(i + 1);
            assert(next.drop_last() =~= views(parts@).take(i as int));
            assert(next.last() == parts@[i as int]@);
        }
        if i > 0 {
            r.append(sep);
            r.append(parts[i].as_str());
        } else {
            r.append(parts[i].as_str());
            assert(r@ =~= parts@[0]@);
        }
        i += 1;
    }
    assert(views(parts@).take(parts@.len() as int) =~= views(parts@));
    r
}

/// Joins borrowed strings with `sep` between two neighbours.
pub fn join_strs(parts: &[&str], sep: &str) -> (r: String)
    ensures
        r@ == join(strs(parts@), sep@),
{
    let mut r: String = String::new();
    let mut i: usize = 0;
    assert(strs(parts@).take(0) =~= Seq::<Seq<char>>::empty());
    while i < parts.len()
        invariant
            i <= parts.len(),
            r@ == join(strs(parts@).take(i as int), sep@),
        decreases parts.len() - i,
    {
        proof {
            let next = strs(parts@).take(i + 1);
            assert(next.drop_last() =~= strs(parts@).take(i as int));
            assert(next.last() == parts@[i as int]@);
        }
        if i > 0 {
            r.append(sep);
            r.append(parts[i]);
        } else {
            r.append(parts[i]);
            assert(r@ =~= parts@[0]@);
        }
        i += 1;
    }
    assert(strs(parts@).take(parts@.len() as int) =~= strs(parts@));
    r
}

/// How many characters at the start of `s` satisfy `p` before the first one that does not.
pub open spec fn span(s: Seq<char>, p: spec_fn(char) -> bool) -> nat
    decreases s.len(),
{
    if s.len() == 0 || !p(s[0]) {
        0
    } else {
        1 + span(s.skip(1), p)
    }
}

/// How many characters at the end of `s` satisfy `p` after the last one that does not.
pub open spec fn rspan(s: Seq<char>, p: spec_fn(char) -> bool) -> nat
    decreases s.len(),
{
    if s.len() == 0 || !p(s.last()) {
        0
    } else {
        1 + rspan(s.drop_last(), p)
    }
}

/// `n` is the span of `s` when `p` holds before `n` and fails at `n`.
pub proof fn lemma_span_is(s: Seq<char>, p: spec_fn(char) -> bool, n: int)
    requires
        0 <= n <= s.len(),
        forall|i: int| 0 <= i < n ==> #[trigger] p(s[i]),
        n < s.len() ==> !p(s[n]),
    ensures
        span(s, p) == n,
    decreases s.len(),
{
    if n > 0 {
        assert(p(s[0]));
        let t = s.skip(1);
        assert forall|i: int| 0 <= i < n - 1 implies #[trigger] p(t[i]) by {
            assert(t[i] == s[i + 1]);
            assert(p(s[i + 1]));
        }
        lemma_span_is(t, p, n - 1);
    }
}

/// What the span of `s` is.
pub proof fn lemma_span(s: Seq<char>, p: spec_fn(char) -> bool)
    ensures
        span(s, p) <= s.len(),
        forall|i: int| 0 <= i < span(s, p) ==> #[trigger] p(s[i]),
        span(s, p) < s.len() ==> !p(s[span(s, p) as int]),
    decreases s.len(),
{
    if s.len() > 0 && p(s[0]) {
        let t = s.skip(1);
        lemma_span(t, p);
        assert forall|i: int| 0 <= i < span(s, p) implies #[trigger] p(s[i]) by {
            if i > 0 {
                assert(s[i] == t[i - 1]);
                assert(p(t[i - 1]));
            }
        }
    }
}

/// `n` is the trailing span of `s` when `p` holds after `s.len() - n` and fails just before.
pub proof fn lemma_rspan_is(s: Seq<char>, p: spec_fn(char) -> bool, n: int)
    requires
        0 <= n <= s.len(),
        forall|i: int| s.len() - n <= i < s.len() ==> #[trigger] p(s[i]),
        n < s.len() ==> !p(s[s.len() - n - 1]),
    ensures
        rspan(s, p) == n,
    decreases s.len(),
{
    if n > 0 {
        assert(p(s[s.len() - 1]));
        let t = s.drop_last();
        assert forall|i: int| t.len() - (n - 1) <= i < t.len() implies #[trigger] p(t[i]) by {
            assert(t[i] == s[i]);
            assert(p(s[i]));
        }
        lemma_rspan_is(t, p, n - 1);
    }
}

/// What the trailing span of `s` is.
pub proof fn lemma_rspan(s: Seq<char>, p: spec_fn(char) -> bool)
    ensures
        rspan(s, p) <= s.len(),
        forall|i: int| s.len() - rspan(s, p) <= i < s.len() ==> #[trigger] p(s[i]),
        rspan(s, p) < s.len() ==> !p(s[s.len() - rspan(s, p) - 1]),
    decreases s.len(),
{
    if s.len() > 0 && p(s.last()) {
        let t = s.drop_last();
        lemma_rspan(t, p);
        assert forall|i: int| s.len() - rspan(s, p) <= i < s.len() implies #[trigger] p(s[i]) by {
            if i < t.len() {
                assert(s[i] == t[i]);
                assert(p(t[i]));
            }
        }
    }
}

/// Every character but `c`.
pub open spec fn other_than(c: char) -> spec_fn(char) -> bool {
    |x: char| x != c
}

/// White space.
pub open spec fn white() -> spec_fn(char) -> bool {
    |x: char| is_white(x)
}

/// Everything but white space.
pub open spec fn non_white() -> spec_fn(char) -> bool {
    |x: char| !is_white(x)
}

/// The pieces of `s` between the occurrences of `c`: one more piece than occurrences.
pub open spec fn split(s: Seq<char>, c: char) -> Seq<Seq<char>>
    decreases s.len(),
{
    let n = span(s, other_than(c)) as int;
    if 0 <= n < s.len() {
        seq![s.take(n)] + split(s.skip(n + 1), c)
    } else {
        seq![s]
    }
}

/// Whether `c` does not occur in `s`.
pub open spec fn lacks(s: Seq<char>, c: char) -> bool {
    forall|i: int| 0 <= i < s.len() ==> #[trigger] s[i] != c
}

/// What follows the first occurrence of `c` is split on its own.
pub proof fn lemma_split_first(a: Seq<char>, c: char, rest: Seq<char>)
    requires
        lacks(a, c),
    ensures
        split(a + seq![c] + rest, c) == seq![a] + split(rest, c),
{
    let s = a + seq![c] + rest;
    assert forall|i: int| 0 <= i < a.len() implies #[trigger] other_than(c)(s[i]) by {
        assert(s[i] == a[i]);
    }
    assert(s[a.len() as int] == c);
    lemma_span_is(s, other_than(c), a.len() as int);
    assert(s.take(a.len() as int) =~= a);
    assert(s.skip(a.len() as int + 1) =~= rest);
}

/// A text without `c` is one piece.
pub proof fn lemma_split_none(a: Seq<char>, c: char)
    requires
        lacks(a, c),
    ensures
        split(a, c) == seq![a],
{
    lemma_span_is(a, other_than(c), a.len() as int);
}

/// A list is its first piece, the separator and the rest.
pub proof fn lemma_join_front(parts: Seq<Seq<char>>, sep: Seq<char>)
    requires
        parts.len() > 1,
    ensures
        join(parts, sep) == parts[0] + sep + join(parts.skip(1), sep),
    decreases parts.len(),
{
    let tail = parts.skip(1);
    if parts.len() == 2 {
        assert(join(parts.drop_last(), sep) == parts[0]);
        assert(join(tail, sep) == tail[0]);
    } else {
        lemma_join_front(parts.drop_last(), sep);
        assert(parts.drop_last().skip(1) =~= tail.drop_last());
        assert(join(parts, sep) =~= parts[0] + sep + join(tail, sep));
    }
}

/// Splitting gives back what was joined, where no piece holds the separator.
pub proof fn law_split_undoes_join(parts: Seq<Seq<char>>, c: char)
    requires
        parts.len() > 0,
        forall|i: int| 0 <= i < parts.len() ==> lacks(#[trigger] parts[i], c),
    ensures
        split(join(parts, seq![c]), c) == parts,
    decreases parts.len(),
{
    if parts.len() == 1 {
        lemma_split_none(parts[0], c);
        assert(parts =~= seq![parts[0]]);
    } else {
        let tail = parts.skip(1);
        lemma_join_front(parts, seq![c]);
        lemma_split_first(parts[0], c, join(tail, seq![c]));
        assert forall|i: int| 0 <= i < tail.len() implies lacks(#[trigger] tail[i], c) by {
            assert(tail[i] == parts[i + 1]);
        }
        law_split_undoes_join(tail, c);
        assert(parts =~= seq![parts[0]] + tail);
    }
}

/// The maximal runs of non-white characters of `s`, in order.
pub open spec fn words(s: Seq<char>) -> Seq<Seq<char>>
    decreases s.len(),
{
    if s.len() == 0 {
        Seq::empty()
    } else if is_white(s[0]) {
        words(s.skip(1))
    } else {
        let n = span(s, non_white()) as int;
        if 0 < n <= s.len() {
            seq![s.take(n)] + words(s.skip(n))
        } else {
            Seq::empty()
        }
    }
}

/// Whether `w` could be a word: it has characters, and none of them is white.
pub open spec fn solid(w: Seq<char>) -> bool {
    w.len() > 0 && forall|i: int| 0 <= i < w.len() ==> !is_white(#[trigger] w[i])
}

/// The words of a text are words.
pub proof fn lemma_words_solid(s: Seq<char>)
    ensures
        forall|i: int| 0 <= i < words(s).len() ==> solid(#[trigger] words(s)[i]),
    decreases s.len(),
{
    if s.len() > 0 {
        if is_white(s[0]) {
            lemma_words_solid(s.skip(1));
            assert(words(s) == words(s.skip(1)));
        } else {
            let n = span(s, non_white()) as int;
            lemma_span(s, non_white());
            if 0 < n <= s.len() {
                let first = s.take(n);
                assert forall|i: int| 0 <= i < first.len() implies !is_white(#[trigger] first[i]) by {
                    assert(non_white()(s[i]));
                }
                lemma_words_solid(s.skip(n));
                assert forall|i: int| 0 <= i < words(s).len() implies solid(
                    #[trigger] words(s)[i],
                ) by {
                    assert(words(s) == seq![first] + words(s.skip(n)));
                    if i > 0 {
                        assert(words(s)[i] == words(s.skip(n))[i - 1]);
                    }
                }
            }
        }
    }
}

/// Cutting at white space gives back words that were joined by spaces.
pub proof fn law_words_undo_join(parts: Seq<Seq<char>>)
    requires
        forall|i: int| 0 <= i < parts.len() ==> solid(#[trigger] parts[i]),
    ensures
        words(join(parts, " "@)) == parts,
    decreases parts.len(),
{
    reveal_strlit(" ");
    if parts.len() > 0 {
        let first = parts[0];
        let n = first.len() as int;
        let s = join(parts, " "@);
        let tail = parts.skip(1);
        if parts.len() > 1 {
            lemma_join_front(parts, " "@);
        }
        assert forall|i: int| 0 <= i < n implies #[trigger] non_white()(s[i]) by {
            assert(s[i] == first[i]);
        }
        lemma_span_is(s, non_white(), n);
        assert(s.take(n) =~= first);
        assert(!is_white(s[0]));
        assert forall|i: int| 0 <= i < tail.len() implies solid(#[trigger] tail[i]) by {
            assert(tail[i] == parts[i + 1]);
        }
        law_words_undo_join(tail);
        if parts.len() > 1 {
            assert(s.skip(n)[0] == ' ');
            assert(s.skip(n).skip(1) =~= join(tail, " "@));
            assert(words(s.skip(n)) == tail);
        } else {
            assert(s.skip(n).len() == 0);
            assert(words(s.skip(n)) =~= tail);
        }
        assert(solid(parts[0]));
        assert(words(s) == seq![first] + words(s.skip(n)));
        assert(parts =~= seq![first] + tail);
    }
}

/// A list of words begins and ends with characters that are not white.
pub proof fn lemma_join_ends(parts: Seq<Seq<char>>)
    requires
        parts.len() > 0,
        forall|i: int| 0 <= i < parts.len() ==> solid(#[trigger] parts[i]),
    ensures
        join(parts, " "@).len() > 0,
        join(parts, " "@)[0] == parts[0][0],
        join(parts, " "@).last() == parts.last().last(),
    decreases parts.len(),
{
    assert(solid(parts[0]) && solid(parts.last()));
    if parts.len() > 1 {
        let front = parts.drop_last();
        assert forall|i: int| 0 <= i < front.len() implies solid(#[trigger] front[i]) by {
            assert(front[i] == parts[i]);
        }
        lemma_join_ends(front);
    }
}

/// `s` without the characters at its start that satisfy `p`.
pub open spec fn trim_start(s: Seq<char>, p: spec_fn(char) -> bool) -> Seq<char> {
    s.skip(span(s, p) as int)
}

/// `s` without the characters at its end that satisfy `p`.
pub open spec fn trim_end(s: Seq<char>, p: spec_fn(char) -> bool) -> Seq<char> {
    s.take(s.len() - rspan(s, p))
}

/// `s` without the white space around it.
pub open spec fn trimmed(s: Seq<char>) -> Seq<char> {
    trim_end(trim_start(s, white()), white())
}

/// A text that neither begins nor ends with white space has none around it.
pub proof fn lemma_trimmed_already(s: Seq<char>)
    requires
        s.len() > 0 ==> !is_white(s[0]) && !is_white(s.last()),
    ensures
        trimmed(s) == s,
{
    lemma_span_is(s, white(), 0);
    assert(s.skip(0) =~= s);
    lemma_rspan_is(s, white(), 0);
    assert(s.take(s.len() as int) =~= s);
}

/// A text that is trimmed neither begins nor ends with white space.
pub proof fn lemma_trimmed_ends(s: Seq<char>)
    ensures
        trimmed(s).len() > 0 ==> !is_white(trimmed(s)[0]) && !is_white(trimmed(s).last()),
{
    lemma_span(s, white());
    let t = trim_start(s, white());
    lemma_rspan(t, white());
}

/// Trimming the start goes over a front that satisfies `p` throughout.
pub proof fn lemma_trim_start_over(a: Seq<char>, b: Seq<char>, p: spec_fn(char) -> bool)
    requires
        span(a, p) == a.len(),
    ensures
        trim_start(a + b, p) == trim_start(b, p),
{
    let n = a.len() + span(b, p);
    let s = a + b;
    lemma_span(a, p);
    lemma_span(b, p);
    assert forall|i: int| 0 <= i < n implies #[trigger] p(s[i]) by {
        if i < a.len() {
            assert(s[i] == a[i]);
        } else {
            assert(s[i] == b[i - a.len()]);
            assert(p(b[i - a.len()]));
        }
    }
    lemma_span_is(s, p, n as int);
    assert(s.skip(n as int) =~= b.skip(span(b, p) as int));
}

/// Trimming the start stops within a front that does not satisfy `p` throughout.
pub proof fn lemma_trim_start_within(a: Seq<char>, b: Seq<char>, p: spec_fn(char) -> bool)
    requires
        span(a, p) < a.len(),
    ensures
        trim_start(a + b, p) == trim_start(a, p) + b,
{
    let n = span(a, p) as int;
    let s = a + b;
    lemma_span(a, p);
    assert forall|i: int| 0 <= i < n implies #[trigger] p(s[i]) by {
        assert(s[i] == a[i]);
        assert(p(a[i]));
    }
    assert(s[n] == a[n]);
    lemma_span_is(s, p, n);
    assert(s.skip(n) =~= a.skip(n) + b);
}

/// Trimming the end goes over a tail that satisfies `p` throughout.
pub proof fn lemma_trim_end_over(a: Seq<char>, b: Seq<char>, p: spec_fn(char) -> bool)
    requires
        rspan(b, p) == b.len(),
    ensures
        trim_end(a + b, p) == trim_end(a, p),
{
    let n = b.len() + rspan(a, p);
    let s = a + b;
    lemma_rspan(a, p);
    lemma_rspan(b, p);
    assert forall|i: int| s.len() - n <= i < s.len() implies #[trigger] p(s[i]) by {
        if i < a.len() {
            assert(s[i] == a[i]);
            assert(p(a[i]));
        } else {
            assert(s[i] == b[i - a.len()]);
            assert(p(b[i - a.len()]));
        }
    }
    lemma_rspan_is(s, p, n as int);
    assert(s.take(s.len() - n) =~= a.take(a.len() - rspan(a, p)));
}

/// Trimming the end stops within a tail that does not satisfy `p` throughout.
pub proof fn lemma_trim_end_within(a: Seq<char>, b: Seq<char>, p: spec_fn(char) -> bool)
    requires
        rspan(b, p) < b.len(),
    ensures
        trim_end(a + b, p) == a + trim_end(b, p),
{
    let n = rspan(b, p) as int;
    let s = a + b;
    lemma_rspan(b, p);
    assert forall|i: int| s.len() - n <= i < s.len() implies #[trigger] p(s[i]) by {
        assert(s[i] == b[i - a.len()]);
        assert(p(b[i - a.len()]));
    }
    assert(s[s.len() - n - 1] == b[b.len() - n - 1]);
    lemma_rspan_is(s, p, n);
    assert(s.take(s.len() - n) =~= a + b.take(b.len() - n));
}

/// The pieces of `s` between the occurrences of `c`.
pub fn split_on(s: &str, c: char) -> (r: Vec<String>)
    ensures
        views(r@) == split(s@, c),
        r@.len() >= 1,
{
    let v: Vec<char> = to_chars(s);
    let mut r: Vec<String> = Vec::new();
    let mut start: usize = 0;
    let mut i: usize = 0;
    assert(s@.skip(0) =~= s@);
    assert(views(r@) + split(s@, c) =~= split(s@, c));
    while i < v.len()
        invariant
            v@ == s@,
            start <= i <= v@.len(),
            forall|j: int| start <= j < i ==> v@[j] != c,
            split(s@, c) == views(r@) + split(s@.skip(start as int), c),
        decreases v.len() - i,
    {
        if v[i] == c {
            let ghost rest = s@.skip(start as int);
            proof {
                let n = i - start;
                assert forall|j: int| 0 <= j < n implies #[trigger] other_than(c)(rest[j]) by {
                    assert(v@[start + j] != c);
                }
                lemma_span_is(rest, other_than(c), n as int);
                assert(rest.take(n as int) =~= v@.subrange(start as int, i as int));
                assert(rest.skip(n + 1) =~= s@.skip(i + 1));
            }
            let ghost before = r@;
            r.push(from_chars(&v, start, i));
            assert(views(r@) =~= views(before) + seq![rest.take(i - start)]);
            start = i + 1;
            assert(split(s@, c) =~= views(r@) + split(s@.skip(start as int), c));
        }
        i += 1;
    }
    let ghost rest = s@.skip(start as int);
    proof {
        assert forall|j: int| 0 <= j < rest.len() implies #[trigger] other_than(c)(rest[j]) by {
            assert(v@[start + j] != c);
        }
        lemma_span_is(rest, other_than(c), rest.len() as int);
        assert(rest =~= v@.subrange(start as int, v@.len() as int));
    }
    let ghost before = r@;
    r.push(from_chars(&v, start, v.len()));
    assert(views(r@) =~= views(before) + seq![rest]);
    r
}

/// The words of `s`.
pub fn split_whitespace(s: &str) -> (r: Vec<String>)
    ensures
        views(r@) == words(s@),
{
    let v: Vec<char> = to_chars(s);
    let mut r: Vec<String> = Vec::new();
    let mut i: usize = 0;
    assert(s@.skip(0) =~= s@);
    assert(views(r@) + words(s@) =~= words(s@));
    while i < v.len()
        invariant
            v@ == s@,
            i <= v@.len(),
            words(s@) == views(r@) + words(s@.skip(i as int)),
        decreases v.len() - i,
    {
        let ghost rest = s@.skip(i as int);
        assert(rest[0] == v@[i as int]);
        if is_whitespace(v[i]) {
            assert(rest.skip(1) =~= s@.skip(i + 1));
            i += 1;
        } else {
            let start: usize = i;
            while i < v.len() && !is_whitespace(v[i])
                invariant
                    v@ == s@,
                    start <= i <= v@.len(),
                    forall|j: int| start <= j < i ==> !is_white(v@[j]),
                decreases v.len() - i,
            {
                i += 1;
            }
            proof {
                let n = i - start;
                assert forall|j: int| 0 <= j < n implies #[trigger] non_white()(rest[j]) by {
                    assert(!is_white(v@[start + j]));
                }
                lemma_span_is(rest, non_white(), n as int);
                assert(n > 0);
                assert(rest.take(n as int) =~= v@.subrange(start as int, i as int));
                assert(rest.skip(n as int) =~= s@.skip(i as int));
            }
            let ghost before = r@;
            r.push(from_chars(&v, start, i));
            assert(views(r@) =~= views(before) + seq![rest.take(i - start)]);
            assert(words(s@) =~= views(r@) + words(s@.skip(i as int)));
        }
    }
    assert(words(s@.skip(i as int)) =~= Seq::<Seq<char>>::empty());
    assert(words(s@) =~= views(r@));
    r
}

/// `s` without the white space around it.
pub fn trim(s: &str) -> (r: String)
    ensures
        r@ == trimmed(s@),
{
    let v: Vec<char> = to_chars(s);
    let mut from: usize = 0;
    while from < v.len() && is_whitespace(v[from])
        invariant
            v@ == s@,
            from <= v@.len(),
            forall|j: int| 0 <= j < from ==> is_white(#[trigger] v@[j]),
        decreases v.len() - from,
    {
        from += 1;
    }
    proof {
        assert forall|j: int| 0 <= j < from implies #[trigger] white()(s@[j]) by {
            assert(is_white(v@[j]));
        }
        lemma_span_is(s@, white(), from as int);
    }
    let ghost tail = s@.skip(from as int);
    let mut to: usize = v.len();
    while to > from && is_whitespace(v[to - 1])
        invariant
            v@ == s@,
            from <= to <= v@.len(),
            tail == s@.skip(from as int),
            forall|j: int| to <= j < v@.len() ==> is_white(#[trigger] v@[j]),
        decreases to,
    {
        to -= 1;
    }
    proof {
        let n = v@.len() - to;
        assert forall|j: int| tail.len() - n <= j < tail.len() implies #[trigger] white()(
            tail[j],
        ) by {
            assert(is_white(v@[from + j]));
        }
        lemma_rspan_is(tail, white(), n as int);
        assert(tail.take(tail.len() - n) =~= v@.subrange(from as int, to as int));
    }
    from_chars(&v, from, to)
}

/// Whether `s` ends with the character `c`.
pub open spec fn ends_in(s: Seq<char>, c: char) -> bool {
    s.len() > 0 && s.last() == c
}

/// Whether `s` ends with the character `c`.
pub fn ends_with(s: &str, c: char) -> (r: bool)
    ensures
        r == ends_in(s@, c),
{
    let n: usize = s.unicode_len();
    n > 0 && s.get_char(n - 1) == c
}

/// Where `c` first occurs in `s`.
pub fn find_char(s: &str, c: char) -> (r: Option<usize>)
    ensures
        match r {
            Some(i) => i < s@.len() && i == span(s@, other_than(c)) && s@[i as int] == c,
            None => !s@.contains(c) && span(s@, other_than(c)) == s@.len(),
        },
{
    let v: Vec<char> = to_chars(s);
    let mut i: usize = 0;
    while i < v.len()
        invariant
            v@ == s@,
            i <= v@.len(),
            forall|j: int| 0 <= j < i ==> #[trigger] other_than(c)(v@[j]),
        decreases v.len() - i,
    {
        if v[i] == c {
            proof {
                lemma_span_is(s@, other_than(c), i as int);
            }
            return Some(i);
        }
        i += 1;
    }
    proof {
        lemma_span_is(s@, other_than(c), i as int);
        assert forall|j: int| 0 <= j < s@.len() implies s@[j] != c by {
            assert(other_than(c)(v@[j]));
        }
    }
    None
}

// ---------------------------------------------------------------------------------------------
// Bytes

/// How many bytes a character takes in UTF-8.
pub open spec fn utf8_width(c: char) -> nat {
    let u = c as u32;
    if u < 0x80 {
        1
    } else if u < 0x800 {
        2
    } else if u < 0x10000 {
        3
    } else {
        4
    }
}

/// How many bytes a text takes in UTF-8.
pub open spec fn utf8_len(s: Seq<char>) -> nat
    decreases s.len(),
{
    if s.len() == 0 {
        0
    } else {
        utf8_len(s.drop_last()) + utf8_width(s.last())
    }
}

/// The number of characters in the first `b` bytes of `s`, if those end with a whole character.
pub open spec fn cut_at(s: Seq<char>, b: int) -> Option<nat>
    decreases s.len(),
{
    if b == utf8_len(s) {
        Some(s.len())
    } else if s.len() == 0 {
        None
    } else {
        cut_at(s.drop_last(), b)
    }
}

/// How many bytes a character takes.
pub fn char_width(c: char) -> (r: u8)
    ensures
        r == utf8_width(c),
        1 <= r <= 4,
{
    let u: u32 = c as u32;
    if u < 0x80 {
        1
    } else if u < 0x800 {
        2
    } else if u < 0x10000 {
        3
    } else {
        4
    }
}

/// How many bytes a text takes.
pub fn byte_len(s: &str) -> (r: u128)
    ensures
        r == utf8_len(s@),
{
    let v: Vec<char> = to_chars(s);
    let mut n: u128 = 0;
    let mut i: usize = 0;
    assert(s@.take(0) =~= Seq::<char>::empty());
    while i < v.len()
        invariant
            v@ == s@,
            i <= v@.len(),
            n == utf8_len(s@.take(i as int)),
            n <= 4 * i,
        decreases v.len() - i,
    {
        assert(s@.take(i + 1).drop_last() =~= s@.take(i as int));
        n = n + char_width(v[i]) as u128;
        i += 1;
    }
    assert(s@.take(i as int) =~= s@);
    n
}

proof fn lemma_no_cut(s: Seq<char>, b: int)
    requires
        forall|k: int| 0 <= k <= s.len() ==> #[trigger] utf8_len(s.take(k)) != b,
    ensures
        cut_at(s, b) is None,
    decreases s.len(),
{
    assert(s.take(s.len() as int) =~= s);
    if s.len() > 0 {
        assert forall|k: int| 0 <= k <= s.drop_last().len() implies #[trigger] utf8_len(
            s.drop_last().take(k),
        ) != b by {
            assert(s.drop_last().take(k) =~= s.take(k));
        }
        lemma_no_cut(s.drop_last(), b);
    }
}

/// The first bytes of a text end with a whole character where they are those of a prefix.
pub proof fn lemma_cut(s: Seq<char>, k: int)
    requires
        0 <= k <= s.len(),
    ensures
        cut_at(s, utf8_len(s.take(k)) as int) == Some(k as nat),
    decreases s.len(),
{
    if k == s.len() {
        assert(s.take(k) =~= s);
    } else {
        lemma_cut(s.drop_last(), k);
        assert(s.drop_last().take(k) =~= s.take(k));
        lemma_prefix_shorter(s, k);
    }
}

/// A proper prefix takes fewer bytes.
pub proof fn lemma_prefix_shorter(s: Seq<char>, k: int)
    requires
        0 <= k < s.len(),
    ensures
        utf8_len(s.take(k)) < utf8_len(s),
    decreases s.len(),
{
    if k < s.len() - 1 {
        lemma_prefix_shorter(s.drop_last(), k);
        assert(s.drop_last().take(k) =~= s.take(k));
    } else {
        assert(s.take(k) =~= s.drop_last());
    }
}

/// The number of characters in the first `b` bytes, if those end with a whole character.
pub fn find_cut(s: &str, b: u128) -> (r: Option<usize>)
    ensures
        match r {
            Some(k) => cut_at(s@, b as int) == Some(k as nat) && k <= s@.len(),
            None => cut_at(s@, b as int) is None,
        },
{
    let v: Vec<char> = to_chars(s);
    let mut n: u128 = 0;
    let mut i: usize = 0;
    assert(s@.take(0) =~= Seq::<char>::empty());
    while i < v.len()
        invariant
            v@ == s@,
            i <= v@.len(),
            n == utf8_len(s@.take(i as int)),
            n <= 4 * i,
            forall|k: int| 0 <= k < i ==> #[trigger] utf8_len(s@.take(k)) != b,
        decreases v.len() - i,
    {
        if n == b {
            proof {
                lemma_cut(s@, i as int);
            }
            return Some(i);
        }
        assert(s@.take(i + 1).drop_last() =~= s@.take(i as int));
        n = n + char_width(v[i]) as u128;
        i += 1;
    }
    if n == b {
        proof {
            lemma_cut(s@, i as int);
        }
        return Some(i);
    }
    proof {
        lemma_no_cut(s@, b as int);
    }
    None
}

/// A text takes one to four bytes for each character.
pub proof fn lemma_utf8_bounds(s: Seq<char>)
    ensures
        s.len() <= utf8_len(s) <= 4 * s.len(),
    decreases s.len(),
{
    if s.len() > 0 {
        lemma_utf8_bounds(s.drop_last());
    }
}

/// The number of whole characters in the first `b` bytes of `s`.
pub open spec fn floor_at(s: Seq<char>, b: int) -> nat
    decreases s.len(),
{
    if s.len() == 0 || utf8_len(s) <= b {
        s.len()
    } else {
        floor_at(s.drop_last(), b)
    }
}

/// The number of whole characters in the first `b` bytes.
pub fn floor_cut(s: &[char], b: u128) -> (r: usize)
    ensures
        r == floor_at(s@, b as int),
        r <= s@.len(),
{
    let mut n: u128 = 0;
    let mut i: usize = 0;
    assert(s@.take(0) =~= Seq::<char>::empty());
    while i < s.len()
        invariant
            i <= s@.len(),
            n == utf8_len(s@.take(i as int)),
            n <= 4 * i,
            n <= b,
        decreases s.len() - i,
    {
        let w: u128 = char_width(s[i]) as u128;
        assert(s@.take(i + 1).drop_last() =~= s@.take(i as int));
        if n + w > b {
            proof {
                lemma_floor(s@, i as int, b as int);
            }
            return i;
        }
        n = n + w;
        i += 1;
    }
    assert(s@.take(i as int) =~= s@);
    i
}

proof fn lemma_floor(s: Seq<char>, k: int, b: int)
    requires
        0 <= k < s.len(),
        utf8_len(s.take(k)) <= b < utf8_len(s.take(k + 1)),
    ensures
        floor_at(s, b) == k,
    decreases s.len(),
{
    if k + 1 < s.len() {
        lemma_prefix_shorter(s, k + 1);
        assert(s.drop_last().take(k) =~= s.take(k));
        assert(s.drop_last().take(k + 1) =~= s.take(k + 1));
        lemma_floor(s.drop_last(), k, b);
    } else {
        assert(s.take(k + 1) =~= s);
        assert(s.drop_last() =~= s.take(k));
        assert(floor_at(s.drop_last(), b) == k);
    }
}

// ---------------------------------------------------------------------------------------------
// Order

/// The order of strings: by the first character in which they differ, a prefix first.
pub open spec fn lex_le(a: Seq<char>, b: Seq<char>) -> bool
    decreases a.len(),
{
    if a.len() == 0 {
        true
    } else if b.len() == 0 {
        false
    } else if a[0] == b[0] {
        lex_le(a.skip(1), b.skip(1))
    } else {
        a[0] < b[0]
    }
}

/// Any two strings can be compared.
pub proof fn lemma_lex_total(a: Seq<char>, b: Seq<char>)
    ensures
        lex_le(a, b) || lex_le(b, a),
    decreases a.len(),
{
    if a.len() > 0 && b.len() > 0 && a[0] == b[0] {
        lemma_lex_total(a.skip(1), b.skip(1));
    }
}

/// The order of strings is transitive.
pub proof fn lemma_lex_transitive(a: Seq<char>, b: Seq<char>, c: Seq<char>)
    requires
        lex_le(a, b),
        lex_le(b, c),
    ensures
        lex_le(a, c),
    decreases a.len(),
{
    if a.len() > 0 && a[0] == b[0] && b[0] == c[0] {
        lemma_lex_transitive(a.skip(1), b.skip(1), c.skip(1));
    }
}

/// Whether `a` comes before `b` or is the same.
pub fn str_le(a: &str, b: &str) -> (r: bool)
    ensures
        r == lex_le(a@, b@),
{
    let x: Vec<char> = to_chars(a);
    let y: Vec<char> = to_chars(b);
    let mut i: usize = 0;
    assert(a@.skip(0) =~= a@);
    assert(b@.skip(0) =~= b@);
    while i < x.len() && i < y.len()
        invariant
            x@ == a@,
            y@ == b@,
            i <= x@.len(),
            i <= y@.len(),
            lex_le(a@, b@) == lex_le(a@.skip(i as int), b@.skip(i as int)),
        decreases x.len() - i,
    {
        if x[i] != y[i] {
            return x[i] < y[i];
        }
        assert(a@.skip(i as int).skip(1) =~= a@.skip(i + 1));
        assert(b@.skip(i as int).skip(1) =~= b@.skip(i + 1));
        i += 1;
    }
    i == x.len()
}

// ---------------------------------------------------------------------------------------------
// Decimal numbers

/// The decimal digit `d`.
pub open spec fn digit(d: nat) -> char {
    if d == 0 { '0' } else if d == 1 { '1' } else if d == 2 { '2' } else if d == 3 { '3' }
    else if d == 4 { '4' } else if d == 5 { '5' } else if d == 6 { '6' } else if d == 7 { '7' }
    else if d == 8 { '8' } else { '9' }
}

/// `n` in decimal, without leading zeros.
pub open spec fn decimal(n: nat) -> Seq<char>
    decreases n,
{
    if n < 10 {
        seq![digit(n)]
    } else {
        decimal(n / 10).push(digit(n % 10))
    }
}

/// Whether `c` is one of the ten decimal digits.
pub open spec fn is_digit(c: char) -> bool {
    '0' <= c <= '9'
}

/// Whether `s` holds nothing but decimal digits.
pub open spec fn all_digits(s: Seq<char>) -> bool {
    forall|i: int| 0 <= i < s.len() ==> is_digit(#[trigger] s[i])
}

/// The number that a sequence of decimal digits stands for.
pub open spec fn digits_value(s: Seq<char>) -> nat
    decreases s.len(),
{
    if s.len() == 0 {
        0
    } else {
        digits_value(s.drop_last()) * 10 + (s.last() as nat - '0' as nat) as nat
    }
}

/// The number that `s` spells: decimal digits, at least one, after an optional plus sign.
pub open spec fn spelled(s: Seq<char>) -> Option<nat> {
    let d = if s.len() > 0 && s[0] == '+' { s.skip(1) } else { s };
    if d.len() > 0 && all_digits(d) {
        Some(digits_value(d))
    } else {
        None
    }
}

/// Reads what `decimal` writes.
pub proof fn law_decimal_reads_back(n: nat)
    ensures
        spelled(decimal(n)) == Some(n),
{
    lemma_decimal(n);
}

proof fn lemma_decimal(n: nat)
    ensures
        decimal(n).len() > 0,
        forall|i: int| 0 <= i < decimal(n).len() ==> is_digit(#[trigger] decimal(n)[i]),
        digits_value(decimal(n)) == n,
    decreases n,
{
    if n < 10 {
        assert(decimal(n).drop_last() =~= Seq::<char>::empty());
        assert(digits_value(decimal(n).drop_last()) == 0);
    } else {
        lemma_decimal(n / 10);
        assert(decimal(n).drop_last() =~= decimal(n / 10));
        assert forall|i: int| 0 <= i < decimal(n).len() implies is_digit(
            #[trigger] decimal(n)[i],
        ) by {
            if i < decimal(n / 10).len() {
                assert(decimal(n)[i] == decimal(n / 10)[i]);
            }
        }
    }
}

fn digit_char(d: u64) -> (c: char)
    requires
        d < 10,
    ensures
        c == digit(d as nat),
{
    if d == 0 { '0' } else if d == 1 { '1' } else if d == 2 { '2' } else if d == 3 { '3' }
    else if d == 4 { '4' } else if d == 5 { '5' } else if d == 6 { '6' } else if d == 7 { '7' }
    else if d == 8 { '8' } else { '9' }
}

/// Writes `n` in decimal.
pub fn show(n: u64) -> (s: String)
    ensures
        s@ == decimal(n as nat),
    decreases n,
{
    if n < 10 {
        let mut s: String = String::new();
        s.push(digit_char(n));
        assert(s@ =~= decimal(n as nat));
        s
    } else {
        let mut s: String = show(n / 10);
        s.push(digit_char(n % 10));
        s
    }
}

proof fn lemma_digits_grow(s: Seq<char>, k: int)
    requires
        0 <= k <= s.len(),
    ensures
        digits_value(s.take(k)) <= digits_value(s),
    decreases s.len(),
{
    if k < s.len() {
        lemma_digits_grow(s.drop_last(), k);
        assert(s.drop_last().take(k) =~= s.take(k));
    } else {
        assert(s.take(k) =~= s);
    }
}

/// Reads a decimal number of 64 bits.
pub fn parse_u64(s: &str) -> (r: Option<u64>)
    ensures
        match spelled(s@) {
            Some(n) => if n <= u64::MAX { r == Some(n as u64) } else { r is None },
            None => r is None,
        },
{
    let v: Vec<char> = to_chars(s);
    let start: usize = if v.len() > 0 && v[0] == '+' { 1 } else { 0 };
    let ghost d = if s@.len() > 0 && s@[0] == '+' { s@.skip(1) } else { s@ };
    assert(d =~= v@.skip(start as int));
    if start == v.len() {
        return None;
    }
    let mut n: u64 = 0;
    let mut i: usize = start;
    assert(d.take(0) =~= Seq::<char>::empty());
    while i < v.len()
        invariant
            v@ == s@,
            start <= i <= v@.len(),
            start < v@.len(),
            start == if s@.len() > 0 && s@[0] == '+' { 1int } else { 0int },
            d == v@.skip(start as int),
            d == if s@.len() > 0 && s@[0] == '+' { s@.skip(1) } else { s@ },
            forall|j: int| 0 <= j < i - start ==> is_digit(#[trigger] d[j]),
            n == digits_value(d.take(i - start)),
        decreases v.len() - i,
    {
        let c: char = v[i];
        assert(c == d[i - start]);
        if !('0' <= c && c <= '9') {
            assert(!is_digit(d[i - start]));
            return None;
        }
        let x: u64 = (c as u32 - '0' as u32) as u64;
        let ghost here = d.take(i - start + 1);
        proof {
            assert(here.drop_last() =~= d.take(i - start));
            assert(digits_value(here) == digits_value(d.take(i - start)) * 10 + x);
            lemma_digits_grow(d, i - start + 1);
        }
        if n > (u64::MAX - x) / 10 {
            assert(n * 10 + x > u64::MAX);
            return None;
        }
        n = n * 10 + x;
        i += 1;
    }
    assert(d.take(i - start) =~= d);
    Some(n)
}

// ---------------------------------------------------------------------------------------------
// Unicode tables

/// Whether a character is alphabetic or numeric.
pub uninterp spec fn alphanumeric(c: char) -> bool;

/// The lowercase form of a text.
pub uninterp spec fn lowercase(s: Seq<char>) -> Seq<char>;

/// The uppercase mapping of a character.
pub uninterp spec fn uppercase(c: char) -> Seq<char>;

/// `char::is_alphanumeric` depends on the character alone.
pub assume_specification[ char::is_alphanumeric ](c: char) -> (r: bool)
    ensures
        r == alphanumeric(c),
;

/// `str::to_lowercase` depends on the text alone.
pub assume_specification[ str::to_lowercase ](s: &str) -> (r: String)
    ensures
        r@ == lowercase(s@),
;

/// `char::to_uppercase` yields the uppercase mapping of the character, one or more characters
/// that depend on it alone.
#[verifier::external_body]
pub(crate) fn to_uppercase(c: char) -> (r: String)
    ensures
        r@ == uppercase(c),
        r@.len() > 0,
{
    c.to_uppercase().to_string()
}

/// Blanks, tabs and line ends are white, and no other character of ASCII that can be seen is.
pub proof fn law_nothing_visible_is_white(c: char)
    ensures
        is_white(' ') && is_white('\t') && is_white('\n') && is_white('\r'),
        '!' <= c <= '~' ==> !is_white(c),
{
}

/// Trimming cuts the white off both ends and nothing else.
pub proof fn law_trimming_cuts_only_white(s: Seq<char>)
    ensures
        exists|a: int, b: int|
            {
                &&& 0 <= a <= b <= s.len()
                &&& trimmed(s) == #[trigger] s.subrange(a, b)
                &&& forall|i: int| 0 <= i < a ==> is_white(#[trigger] s[i])
                &&& forall|i: int| b <= i < s.len() ==> is_white(#[trigger] s[i])
                &&& a < b ==> !is_white(s[a]) && !is_white(s[b - 1])
            },
{
    let p = white();
    let a = span(s, p) as int;
    lemma_span(s, p);
    let t = trim_start(s, p);
    lemma_rspan(t, p);
    let b = s.len() - rspan(t, p);
    assert(a <= b);
    assert(trimmed(s) =~= s.subrange(a, b));
    assert forall|i: int| 0 <= i < a implies is_white(#[trigger] s[i]) by {
        assert(p(s[i]));
    }
    assert forall|i: int| b <= i < s.len() implies is_white(#[trigger] s[i]) by {
        assert(p(t[i - a]));
    }
    if a < b {
        assert(!p(s[a]));
        assert(!p(t[t.len() - rspan(t, p) - 1]));
    }
}

/// The pieces of a text joined again are the text, and none of them holds the separator.
pub proof fn law_join_undoes_split(s: Seq<char>, c: char)
    ensures
        join(split(s, c), seq![c]) == s,
        split(s, c).len() > 0,
        forall|i: int| 0 <= i < split(s, c).len() ==> lacks(#[trigger] split(s, c)[i], c),
    decreases s.len(),
{
    let p = other_than(c);
    let n = span(s, p) as int;
    lemma_span(s, p);
    if n < s.len() {
        let rest = s.skip(n + 1);
        law_join_undoes_split(rest, c);
        let all = split(s, c);
        assert(all.skip(1) =~= split(rest, c));
        lemma_join_front(all, seq![c]);
        assert(!p(s[n]));
        assert(s.take(n) + seq![c] + rest =~= s);
        assert forall|i: int| 0 <= i < all.len() implies lacks(#[trigger] all[i], c) by {
            if i == 0 {
                assert forall|k: int| 0 <= k < n implies #[trigger] s.take(n)[k] != c by {
                    assert(p(s[k]));
                }
            } else {
                assert(all[i] == split(rest, c)[i - 1]);
            }
        }
    } else {
        assert forall|k: int| 0 <= k < s.len() implies #[trigger] s[k] != c by {
            assert(p(s[k]));
        }
    }
}

/// Two lists one after the other are joined as each of them is, with the separator between the two.
pub proof fn law_joining_is_piece_by_piece(a: Seq<Seq<char>>, b: Seq<Seq<char>>, sep: Seq<char>)
    requires
        a.len() > 0,
        b.len() > 0,
    ensures
        join(a + b, sep) == join(a, sep) + sep + join(b, sep),
        join(seq![a[0]], sep) == a[0],
        join(Seq::empty(), sep) == Seq::<char>::empty(),
    decreases b.len(),
{
    assert((a + b).drop_last() =~= a + b.drop_last());
    if b.len() > 1 {
        law_joining_is_piece_by_piece(a, b.drop_last(), sep);
        assert(join(a + b, sep) =~= join(a, sep) + sep + join(b, sep));
    } else {
        assert(a + b.drop_last() =~= a);
    }
}

/// A text occurs in every text that holds it somewhere, and in no other.
pub proof fn law_occurring_is_standing_somewhere(s: Seq<char>, needle: Seq<char>)
    ensures
        occurs(s, needle) <==> exists|a: Seq<char>, b: Seq<char>| s == #[trigger] (a + needle + b),
{
    if occurs(s, needle) {
        let i = choose|i: int| occurs_at(s, needle, i);
        assert(occurs_at(s, needle, i));
        let a = s.take(i);
        let b = s.skip(i + needle.len());
        assert(a + needle + b =~= s) by {
            assert forall|k: int| 0 <= k < s.len() implies (a + needle + b)[k] == s[k] by {
                if i <= k < i + needle.len() {
                    assert(s.subrange(i, i + needle.len())[k - i] == s[k]);
                }
            }
        }
    }
    if exists|a: Seq<char>, b: Seq<char>| s == #[trigger] (a + needle + b) {
        let (a, b) = choose|a: Seq<char>, b: Seq<char>| s == #[trigger] (a + needle + b);
        assert(s.subrange(a.len() as int, (a.len() + needle.len()) as int) =~= needle);
        assert(occurs_at(s, needle, a.len() as int));
    }
}

/// White of any kind parts words: those of a text are the words before it and the words after it.
pub proof fn law_white_parts_words(a: Seq<char>, c: char, b: Seq<char>)
    requires
        is_white(c),
    ensures
        words(a + seq![c] + b) == words(a) + words(b),
    decreases a.len(),
{
    let s = a + seq![c] + b;
    if a.len() == 0 {
        assert(s.skip(1) =~= b);
        assert(words(a) + words(b) =~= words(b));
    } else if is_white(a[0]) {
        assert(s.skip(1) =~= a.skip(1) + seq![c] + b);
        law_white_parts_words(a.skip(1), c, b);
    } else {
        let p = non_white();
        let n = span(a, p) as int;
        lemma_span(a, p);
        assert(n > 0) by {
            assert(p(a[0]));
        }
        assert forall|i: int| 0 <= i < n implies #[trigger] p(s[i]) by {
            assert(p(a[i]));
        }
        if n < a.len() {
            assert(s[n] == a[n]);
        } else {
            assert(s[n] == c);
        }
        lemma_span_is(s, p, n);
        assert(s.take(n) =~= a.take(n));
        assert(s.skip(n) =~= a.skip(n) + seq![c] + b);
        law_white_parts_words(a.skip(n), c, b);
        assert(words(s) =~= words(a) + words(b));
    }
}

/// Text without white is one word, and white alone is none.
pub proof fn law_unbroken_text_is_a_word(w: Seq<char>)
    ensures
        solid(w) ==> words(w) == seq![w],
        (forall|i: int| 0 <= i < w.len() ==> is_white(#[trigger] w[i])) ==> words(w)
            == Seq::<Seq<char>>::empty(),
    decreases w.len(),
{
    if solid(w) {
        assert forall|i: int| 0 <= i < w.len() implies #[trigger] non_white()(w[i]) by {
            assert(!is_white(w[i]));
        }
        lemma_span_is(w, non_white(), w.len() as int);
        assert(!is_white(w[0]));
        assert(w.take(w.len() as int) =~= w);
        assert(words(w.skip(w.len() as int)) =~= Seq::<Seq<char>>::empty());
        assert(words(w) =~= seq![w]);
    }
    if w.len() > 0 && forall|i: int| 0 <= i < w.len() ==> is_white(#[trigger] w[i]) {
        assert(is_white(w[0]));
        let t = w.skip(1);
        assert forall|i: int| 0 <= i < t.len() implies is_white(#[trigger] t[i]) by {
            assert(is_white(w[i + 1]));
        }
        law_unbroken_text_is_a_word(t);
    }
}

/// Texts are ordered by the first character in which they differ, and a text comes after its own
/// beginning.
pub proof fn law_first_difference_decides(
    p: Seq<char>,
    x: char,
    a: Seq<char>,
    y: char,
    b: Seq<char>,
)
    ensures
        x != y ==> lex_le(p + seq![x] + a, p + seq![y] + b) == (x < y),
        lex_le(p, p + a),
        a.len() > 0 ==> !lex_le(p + a, p),
    decreases p.len(),
{
    let s = p + seq![x] + a;
    let t = p + seq![y] + b;
    let u = p + a;
    if p.len() > 0 {
        law_first_difference_decides(p.skip(1), x, a, y, b);
        assert(s.skip(1) =~= p.skip(1) + seq![x] + a);
        assert(t.skip(1) =~= p.skip(1) + seq![y] + b);
        assert(u.skip(1) =~= p.skip(1) + a);
        assert(s[0] == p[0] && t[0] == p[0] && u[0] == p[0]);
    } else {
        assert(s[0] == x && t[0] == y);
    }
}

/// The bytes of a text are those of its parts, and each character has from one to four of them: one
/// in ASCII, more the further it is from there.
pub proof fn law_bytes_add_up(a: Seq<char>, b: Seq<char>, c: char, d: char)
    ensures
        utf8_len(a + b) == utf8_len(a) + utf8_len(b),
        utf8_len(seq![c]) == utf8_width(c),
        1 <= utf8_width(c) <= 4,
        utf8_width(c) == 1 <==> (c as u32) <= 0x7f,
        utf8_width(c) <= 2 <==> (c as u32) <= 0x7ff,
        utf8_width(c) <= 3 <==> (c as u32) <= 0xffff,
        c <= d ==> utf8_width(c) <= utf8_width(d),
    decreases b.len(),
{
    assert(seq![c].drop_last() =~= Seq::<char>::empty());
    reveal_with_fuel(utf8_len, 2);
    if b.len() > 0 {
        law_bytes_add_up(a, b.drop_last(), c, d);
        assert((a + b).drop_last() =~= a + b.drop_last());
    } else {
        assert(a + b =~= a);
    }
}

/// A text can be cut where so many bytes are a whole number of its characters, and nowhere else. What
/// fits into so many bytes is all of the characters that do.
pub proof fn law_cuts_are_between_characters(s: Seq<char>, b: int)
    requires
        b >= 0,
    ensures
        cut_at(s, b) is Some ==> cut_at(s, b)->0 <= s.len() && utf8_len(
            s.take(cut_at(s, b)->0 as int),
        ) == b,
        cut_at(s, b) is None ==> forall|k: int|
            0 <= k <= s.len() ==> #[trigger] utf8_len(s.take(k)) != b,
        floor_at(s, b) <= s.len(),
        utf8_len(s.take(floor_at(s, b) as int)) <= b,
        floor_at(s, b) < s.len() ==> utf8_len(s.take(floor_at(s, b) as int + 1)) > b,
    decreases s.len(),
{
    assert(s.take(s.len() as int) =~= s);
    if s.len() > 0 {
        let t = s.drop_last();
        law_cuts_are_between_characters(t, b);
        assert forall|k: int| 0 <= k <= t.len() implies #[trigger] s.take(k) == t.take(k) by {
            assert(s.take(k) =~= t.take(k));
        }
        if cut_at(s, b) is None {
            assert forall|k: int| 0 <= k <= s.len() implies #[trigger] utf8_len(s.take(k)) != b by {
                if k < s.len() {
                    assert(s.take(k) == t.take(k));
                    assert(utf8_len(t.take(k)) != b);
                }
            }
        }
        if b != utf8_len(s) && cut_at(t, b) is Some {
            assert(s.take(cut_at(t, b)->0 as int) == t.take(cut_at(t, b)->0 as int));
        }
        if utf8_len(s) > b {
            let k = floor_at(t, b) as int;
            assert(s.take(k) == t.take(k));
            if k < t.len() {
                assert(s.take(k + 1) == t.take(k + 1));
            }
        }
    } else {
        assert(s.take(0) =~= s);
        if cut_at(s, b) is None {
            assert forall|k: int| 0 <= k <= s.len() implies #[trigger] utf8_len(s.take(k)) != b by {
                assert(s.take(k) =~= s);
            }
        }
    }
}

/// A number is spelled in digits, with a plus before them or without. A digit more makes it ten times
/// what it was and the digit.
pub proof fn law_numbers_are_spelled_in_tens(s: Seq<char>, c: char)
    requires
        s.len() > 0,
        s[0] != '+',
    ensures
        spelled(seq!['+'] + s) == spelled(s),
        spelled(s) is Some <==> forall|i: int| 0 <= i < s.len() ==> '0' <= #[trigger] s[i] <= '9',
        spelled(s) is Some && '0' <= c <= '9' ==> spelled(s.push(c)) == Some(
            (10 * spelled(s)->0 + (c as u32 - '0' as u32)) as nat,
        ),
        '0' <= c <= '9' ==> spelled(seq![c]) == Some((c as u32 - '0' as u32) as nat),
        !('0' <= c <= '9') ==> spelled(s.push(c)) is None,
{
    let plus = seq!['+'] + s;
    assert(plus.skip(1) =~= s);
    let more = s.push(c);
    assert(more.drop_last() =~= s);
    assert(more[0] == s[0]);
    assert(seq![c].drop_last() =~= Seq::<char>::empty());
    reveal_with_fuel(digits_value, 2);
    if '0' <= c <= '9' {
        assert(seq![c][0] == c);
        if all_digits(s) {
            assert forall|i: int| 0 <= i < more.len() implies is_digit(#[trigger] more[i]) by {
                if i < s.len() {
                    assert(is_digit(s[i]));
                }
            }
        }
    } else {
        assert(more[s.len() as int] == c);
        assert(!is_digit(more[s.len() as int]));
    }
}

/// A text is in a list where it is one of those that the list holds: those of two lists one after
/// the other are those of either.
pub proof fn law_lists_hold_their_texts(a: Seq<Seq<char>>, b: Seq<Seq<char>>, s: Seq<char>)
    ensures
        holds(a, s) <==> a.contains(s),
        holds(a + b, s) <==> holds(a, s) || holds(b, s),
        !holds(Seq::empty(), s),
{
    if a.contains(s) {
        let i = choose|i: int| 0 <= i < a.len() && a[i] == s;
        assert(a[i] == s);
        assert((a + b)[i] == s);
    }
    if holds(b, s) {
        let i = choose|i: int| 0 <= i < b.len() && #[trigger] b[i] == s;
        assert((a + b)[a.len() + i] == s);
    }
    if holds(a + b, s) {
        let i = choose|i: int| 0 <= i < (a + b).len() && #[trigger] (a + b)[i] == s;
        if i < a.len() {
            assert(a[i] == s);
        } else {
            assert(b[i - a.len()] == s);
        }
    }
}

/// What is listed in a table is what the texts of the table are.
pub proof fn law_tables_list_their_texts(table: Seq<&'static str>, s: Seq<char>)
    ensures
        listed(table, s) <==> strs(table).contains(s),
{
    if listed(table, s) {
        let i = choose|i: int| 0 <= i < table.len() && (#[trigger] table[i])@ == s;
        assert(strs(table)[i] == s);
    }
    if strs(table).contains(s) {
        let i = choose|i: int| 0 <= i < strs(table).len() && strs(table)[i] == s;
        assert(table[i]@ == s);
    }
}

/// A text ends in the character that was put behind it, and an empty one ends in none.
pub proof fn law_texts_end_in_their_last(s: Seq<char>, c: char, d: char)
    ensures
        ends_in(s.push(c), d) <==> c == d,
        !ends_in(Seq::empty(), d),
{
}

} // verus!
