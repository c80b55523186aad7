//! Operations on text, character by character.

use vstd::prelude::*;

verus! {

/// `String::push` appends one character to the end of the string.
pub assume_specification[ String::push ](s: &mut String, c: char)
    ensures
        final(s)@ == old(s)@.push(c),
;

/// The characters of a text, in order.
pub fn chars_of(s: &str) -> (res: Vec<char>)
    ensures
        res@ == s@,
{
    let mut res: Vec<char> = Vec::new();
    for c in it: s.chars()
        invariant
            it.seq() == s@,
            res@ == s@.take(it.index() as int),
    {
        assert(s@.take(it.index() + 1) =~= s@.take(it.index() as int).push(c));
        res.push(c);
    }
    assert(s@.take(s@.len() as int) =~= s@);
    res
}

/// The characters of `chars` from `from` up to `to`, as a text.
pub fn text_between(chars: &Vec<char>, from: usize, to: usize) -> (res: String)
    requires
        from <= to <= chars@.len(),
    ensures
        res@ == chars@.subrange(from as int, to as int),
{
    let mut res: String = String::new();
    let mut i: usize = from;
    while i < to
        invariant
            from <= i <= to <= chars@.len(),
            res@ == chars@.subrange(from as int, i as int),
        decreases to - i,
    {
        res.push(chars[i]);
        assert(chars@.subrange(from as int, i + 1) =~= chars@.subrange(from as int, i as int).push(
            chars@[i as int],
        ));
        i = i + 1;
    }
    res
}

/// One text after the other.
pub fn joined(a: &str, b: &str, c: &str) -> (res: String)
    ensures
        res@ == a@ + b@ + c@,
{
    let mut res: String = String::new();
    res.append(a);
    res.append(b);
    res.append(c);
    assert(res@ =~= a@ + b@ + c@);
    res
}

/// Whether the two texts hold the same characters.
pub fn same_text(a: &str, b: &str) -> (res: bool)
    ensures
        res == (a@ == b@),
{
    let x: Vec<char> = chars_of(a);
    let y: Vec<char> = chars_of(b);
    if x.len() != y.len() {
        return false;
    }
    let mut i: usize = 0;
    while i < x.len()
        invariant
            i <= x@.len(),
            x@.len() == y@.len(),
            x@ == a@,
            y@ == b@,
            forall|j: int| 0 <= j < i ==> x@[j] == y@[j],
        decreases x.len() - i,
    {
        if x[i] != y[i] {
            assert(a@[i as int] != b@[i as int]);
            return false;
        }
        i = i + 1;
    }
    assert(a@ =~= b@);
    true
}

/// Whether the character occurs in the text.
pub fn contains_char(s: &str, c: char) -> (res: bool)
    ensures
        res == s@.contains(c),
{
    let chars: Vec<char> = chars_of(s);
    let mut i: usize = 0;
    while i < chars.len()
        invariant
            i <= chars@.len(),
            chars@ == s@,
            forall|j: int| 0 <= j < i ==> s@[j] != c,
        decreases chars.len() - i,
    {
        if chars[i] == c {
            assert(s@[i as int] == c);
            return true;
        }
        i = i + 1;
    }
    false
}

/// The characters with the Unicode property `White_Space`.
pub open spec fn is_white(c: char) -> bool {
    ||| '\u{9}' <= c <= '\u{d}'
    ||| c == ' '
    ||| c == '\u{85}'
    ||| c == '\u{a0}'
    ||| c == '\u{1680}'
    ||| '\u{2000}' <= c <= '\u{200a}'
    ||| c == '\u{2028}'
    ||| c == '\u{2029}'
    ||| c == '\u{202f}'
    ||| c == '\u{205f}'
    ||| c == '\u{3000}'
}

/// Whether a character is white space.
pub fn is_white_space(c: char) -> (res: bool)
    ensures
        res == is_white(c),
{
    ('\u{9}' <= c && c <= '\u{d}') || c == ' ' || c == '\u{85}' || c == '\u{a0}' || c == '\u{1680}'
        || ('\u{2000}' <= c && c <= '\u{200a}') || c == '\u{2028}' || c == '\u{2029}' || c
        == '\u{202f}' || c == '\u{205f}' || c == '\u{3000}'
}

/// The maximal runs of characters that are not white space, in order.
pub open spec fn words(s: Seq<char>) -> Seq<Seq<char>>
    decreases s.len(),
{
    if s.len() == 0 {
        seq![]
    } else {
        let before = words(s.drop_last());
        if is_white(s.last()) {
            before
        } else if s.len() == 1 || is_white(s[s.len() - 2]) {
            before.push(seq![s.last()])
        } else {
            before.drop_last().push(before.last().push(s.last()))
        }
    }
}

/// The views of a list of texts.
pub open spec fn views(list: Seq<String>) -> Seq<Seq<char>> {
    Seq::new(list.len(), |i: int| list[i]@)
}

/// The words of a text.
pub fn split_words(s: &str) -> (res: Vec<String>)
    ensures
        views(res@) == words(s@),
{
    let chars: Vec<char> = chars_of(s);
    let mut res: Vec<String> = Vec::new();
    let mut open: String = String::new();
    let mut in_word: bool = false;
    let mut i: usize = 0;
    assert(s@.take(0).len() == 0);
    assert(views(res@) =~= words(s@.take(0)));
    while i < chars.len()
        invariant
            i <= chars@.len(),
            chars@ == s@,
            in_word == (i > 0 && !is_white(s@[i - 1])),
            in_word ==> words(s@.take(i as int)) == views(res@).push(open@),
            !in_word ==> words(s@.take(i as int)) == views(res@) && open@ == Seq::<char>::empty(),
        decreases chars.len() - i,
    {
        let c: char = chars[i];
        let ghost now = s@.take(i + 1);
        assert(now.drop_last() =~= s@.take(i as int));
        assert(now.last() == c);
        assert(i > 0 ==> now[now.len() - 2] == s@[i - 1]);
        if is_white_space(c) {
            if in_word {
                let ghost done = views(res@).push(open@);
                res.push(open);
                assert(views(res@) =~= done);
                open = String::new();
                in_word = false;
            }
        } else {
            let ghost before = views(res@).push(open@);
            assert(in_word ==> before.drop_last() =~= views(res@));
            let ghost was = open@;
            open.push(c);
            assert(was.len() == 0 ==> open@ =~= seq![c]);
            in_word = true;
        }
        i = i + 1;
    }
    assert(s@.take(s@.len() as int) =~= s@);
    if in_word {
        let ghost done = views(res@).push(open@);
        res.push(open);
        assert(views(res@) =~= done);
    }
    res
}

/// The text without the white space at its start.
pub open spec fn trim_start(s: Seq<char>) -> Seq<char>
    decreases s.len(),
{
    if s.len() > 0 && is_white(s[0]) {
        trim_start(s.drop_first())
    } else {
        s
    }
}

/// The text without the white space at its end.
pub open spec fn trim_end(s: Seq<char>) -> Seq<char>
    decreases s.len(),
{
    if s.len() > 0 && is_white(s.last()) {
        trim_end(s.drop_last())
    } else {
        s
    }
}

/// The text without the white space at either end.
pub open spec fn trimmed(s: Seq<char>) -> Seq<char> {
    trim_end(trim_start(s))
}

/// Takes the white space off both ends.
pub fn trim(s: &str) -> (res: String)
    ensures
        res@ == trimmed(s@),
{
    let chars: Vec<char> = chars_of(s);
    let mut from: usize = 0;
    assert(s@.skip(0) =~= s@);
    while from < chars.len() && is_white_space(chars[from])
        invariant
            from <= chars@.len(),
            chars@ == s@,
            trim_start(s@) == trim_start(s@.skip(from as int)),
        decreases chars.len() - from,
    {
        assert(s@.skip(from as int).drop_first() =~= s@.skip(from + 1));
        from = from + 1;
    }
    let ghost rest = s@.skip(from as int);
    assert(trim_start(s@) == rest);
    let mut to: usize = chars.len();
    assert(rest =~= s@.subrange(from as int, to as int));
    while from < to && is_white_space(chars[to - 1])
        invariant
            from <= to <= chars@.len(),
            chars@ == s@,
            trim_end(rest) == trim_end(s@.subrange(from as int, to as int)),
        decreases to - from,
    {
        assert(s@.subrange(from as int, to as int).drop_last() =~= s@.subrange(
            from as int,
            to - 1,
        ));
        to = to - 1;
    }
    text_between(&chars, from, to)
}

/// The text without the occurrences of `part`, which are looked for from the start
/// and do not overlap.
pub open spec fn without(s: Seq<char>, part: Seq<char>) -> Seq<char>
    decreases s.len(),
{
    if s.len() == 0 || part.len() == 0 {
        s
    } else if part.is_prefix_of(s) {
        without(s.skip(part.len() as int), part)
    } else {
        seq![s[0]] + without(s.drop_first(), part)
    }
}

/// Whether `part` stands in `chars` at the place `at`.
fn stands_at(chars: &Vec<char>, at: usize, part: &Vec<char>) -> (res: bool)
    requires
        at <= chars@.len(),
    ensures
        res == part@.is_prefix_of(chars@.skip(at as int)),
{
    let ghost rest = chars@.skip(at as int);
    if chars.len() - at < part.len() {
        return false;
    }
    let mut i: usize = 0;
    while i < part.len()
        invariant
            at <= chars@.len(),
            part@.len() <= chars@.len() - at,
            rest == chars@.skip(at as int),
            i <= part@.len(),
            forall|j: int| 0 <= j < i ==> part@[j] == rest[j],
        decreases part.len() - i,
    {
        assert(at + i < chars.len());
        if chars[at + i] != part[i] {
            assert(rest[i as int] != part@[i as int]);
            assert(rest.subrange(0, part@.len() as int)[i as int] == rest[i as int]);
            return false;
        }
        i = i + 1;
    }
    assert(part@ =~= rest.subrange(0, part@.len() as int));
    true
}

/// Takes every occurrence of `part` out of a text.
pub fn remove_all(s: &str, part: &str) -> (res: String)
    requires
        part@.len() > 0,
    ensures
        res@ == without(s@, part@),
{
    let chars: Vec<char> = chars_of(s);
    let pattern: Vec<char> = chars_of(part);
    let mut res: String = String::new();
    let mut i: usize = 0;
    assert(s@.skip(0) =~= s@);
    assert(res@ + without(s@, part@) =~= without(s@, part@));
    while i < chars.len()
        invariant
            i <= chars@.len(),
            chars@ == s@,
            pattern@ == part@,
            part@.len() > 0,
            res@ + without(s@.skip(i as int), part@) == without(s@, part@),
        decreases chars.len() - i,
    {
        let ghost rest = s@.skip(i as int);
        if stands_at(&chars, i, &pattern) {
            assert(rest.skip(part@.len() as int) =~= s@.skip(i + part@.len()));
            i = i + pattern.len();
        } else {
            let ghost was = res@;
            res.push(chars[i]);
            assert(rest.drop_first() =~= s@.skip(i + 1));
            assert(was + (seq![rest[0]] + without(rest.drop_first(), part@)) =~= res@ + without(
                rest.drop_first(),
                part@,
            ));
            i = i + 1;
        }
    }
    assert(s@.skip(s@.len() as int).len() == 0);
    assert(res@ + without(s@.skip(i as int), part@) =~= res@);
    res
}

/// White space by code point: tab to carriage return, space, next line, no-break
/// space, and the spaces and separators of the general punctuation and beyond.
pub proof fn law_white_space_by_code_point(c: char)
    ensures
        is_white(c) == ({
            let n = c as int;
            ||| 9 <= n <= 13
            ||| n == 32
            ||| n == 133
            ||| n == 160
            ||| n == 5760
            ||| 8192 <= n <= 8202
            ||| n == 8232
            ||| n == 8233
            ||| n == 8239
            ||| n == 8287
            ||| n == 12288
        }),
{
}

/// The views of a list of texts leave nothing out.
pub proof fn law_views_are_the_texts(list: Seq<String>)
    ensures
        views(list).len() == list.len(),
        forall|i: int| 0 <= i < list.len() ==> #[trigger] views(list)[i] == list[i]@,
{
}

proof fn lemma_word_is_open(s: Seq<char>)
    requires
        s.len() > 0,
        !is_white(s.last()),
    ensures
        words(s).len() > 0,
{
}

/// A text of one character or more, however long, without white space is one word.
pub proof fn law_text_without_white_space_is_one_word(s: Seq<char>)
    requires
        s.len() > 0,
        forall|i: int| 0 <= i < s.len() ==> !is_white(#[trigger] s[i]),
    ensures
        words(s) == seq![s],
    decreases s.len(),
{
    assert(!is_white(s[s.len() - 1]));
    if s.len() == 1 {
        assert(s.drop_last() =~= Seq::empty());
        assert(words(Seq::empty()) =~= seq![]);
        assert(seq![s.last()] =~= s);
        assert(words(s) =~= seq![s]);
    } else {
        assert(!is_white(s[s.len() - 2]));
        assert forall|i: int| 0 <= i < s.len() - 1 implies !is_white(
            #[trigger] s.drop_last()[i],
        ) by {
            assert(!is_white(s[i]));
        }
        law_text_without_white_space_is_one_word(s.drop_last());
        assert(s.drop_last().push(s.last()) =~= s);
        assert(words(s) =~= seq![s]);
    }
}

/// A white space keeps the words before it and the words after it apart, and adds
/// none; where there is no text there are no words.
pub proof fn law_white_space_keeps_words_apart(before: Seq<char>, c: char, after: Seq<char>)
    requires
        is_white(c),
    ensures
        words(before.push(c) + after) == words(before) + words(after),
        words(Seq::empty()) == Seq::<Seq<char>>::empty(),
    decreases after.len(),
{
    let s = before.push(c) + after;
    if after.len() == 0 {
        assert(s =~= before.push(c));
        assert(s.drop_last() =~= before);
        assert(words(before) + words(after) =~= words(before));
    } else {
        law_white_space_keeps_words_apart(before, c, after.drop_last());
        assert(s.drop_last() =~= before.push(c) + after.drop_last());
        assert(s.last() == after.last());
        let left = words(before);
        let right = words(after.drop_last());
        if is_white(after.last()) {
        } else if after.len() == 1 {
            assert(s[s.len() - 2] == c);
            assert((left + right).push(seq![s.last()]) =~= left + right.push(seq![s.last()]));
        } else {
            assert(s[s.len() - 2] == after[after.len() - 2]);
            if is_white(after[after.len() - 2]) {
                assert((left + right).push(seq![s.last()]) =~= left + right.push(seq![s.last()]));
            } else {
                assert(after.drop_last().last() == after[after.len() - 2]);
                lemma_word_is_open(after.drop_last());
                let both = left + right;
                assert(both.last() == right.last());
                assert(both.drop_last().push(both.last().push(s.last())) =~= left
                    + right.drop_last().push(right.last().push(s.last())));
            }
        }
    }
}

proof fn lemma_trim_start(white: Seq<char>, rest: Seq<char>)
    requires
        forall|i: int| 0 <= i < white.len() ==> is_white(#[trigger] white[i]),
    ensures
        trim_start(white + rest) == trim_start(rest),
    decreases white.len(),
{
    if white.len() == 0 {
        assert(white + rest =~= rest);
    } else {
        assert(is_white(white[0]));
        assert((white + rest).drop_first() =~= white.drop_first() + rest);
        assert forall|i: int| 0 <= i < white.len() - 1 implies is_white(
            #[trigger] white.drop_first()[i],
        ) by {
            assert(is_white(white[i + 1]));
        }
        lemma_trim_start(white.drop_first(), rest);
    }
}

proof fn lemma_trim_end(rest: Seq<char>, white: Seq<char>)
    requires
        forall|i: int| 0 <= i < white.len() ==> is_white(#[trigger] white[i]),
    ensures
        trim_end(rest + white) == trim_end(rest),
    decreases white.len(),
{
    if white.len() == 0 {
        assert(rest + white =~= rest);
    } else {
        assert(is_white(white[white.len() - 1]));
        assert((rest + white).last() == white.last());
        assert((rest + white).drop_last() =~= rest + white.drop_last());
        assert forall|i: int| 0 <= i < white.len() - 1 implies is_white(
            #[trigger] white.drop_last()[i],
        ) by {
            assert(is_white(white[i]));
        }
        lemma_trim_end(rest, white.drop_last());
    }
}

/// White space at either end, however much of it, goes; what stands between, from
/// the first character that is no white space to the last, stays whole.
pub proof fn law_only_the_ends_are_trimmed(
    before: Seq<char>,
    middle: Seq<char>,
    after: Seq<char>,
)
    requires
        forall|i: int| 0 <= i < before.len() ==> is_white(#[trigger] before[i]),
        forall|i: int| 0 <= i < after.len() ==> is_white(#[trigger] after[i]),
        middle.len() > 0 ==> !is_white(middle[0]) && !is_white(middle.last()),
    ensures
        trimmed(before + middle + after) == middle,
{
    assert(before + middle + after =~= before + (middle + after));
    lemma_trim_start(before, middle + after);
    if middle.len() == 0 {
        assert(middle + after =~= after + Seq::empty());
        lemma_trim_start(after, Seq::empty());
        assert(trim_start(Seq::<char>::empty()) =~= Seq::empty());
        assert(middle =~= Seq::empty());
        assert(trim_end(Seq::<char>::empty()) =~= Seq::empty());
    } else {
        assert((middle + after)[0] == middle[0]);
        assert(trim_start(middle + after) == middle + after);
        lemma_trim_end(middle, after);
    }
}

/// A text in which the part stands nowhere is left as it is.
pub proof fn law_nothing_is_taken_out(s: Seq<char>, part: Seq<char>)
    requires
        part.len() > 0,
        forall|i: int| 0 <= i < s.len() ==> !part.is_prefix_of(#[trigger] s.skip(i)),
    ensures
        without(s, part) == s,
    decreases s.len(),
{
    if s.len() > 0 {
        assert(s.skip(0) =~= s);
        assert forall|i: int| 0 <= i < s.len() - 1 implies !part.is_prefix_of(
            #[trigger] s.drop_first().skip(i),
        ) by {
            assert(s.drop_first().skip(i) =~= s.skip(i + 1));
        }
        law_nothing_is_taken_out(s.drop_first(), part);
        assert(seq![s[0]] + s.drop_first() =~= s);
    }
}

/// Where the part stands for the first time it is taken out; what is before it
/// stays, and what is after it is treated in the same way.
pub proof fn law_first_occurrence_is_taken_out(
    before: Seq<char>,
    part: Seq<char>,
    after: Seq<char>,
)
    requires
        part.len() > 0,
        forall|i: int|
            0 <= i < before.len() ==> !part.is_prefix_of(#[trigger] (before + part + after).skip(i)),
    ensures
        without(before + part + after, part) == before + without(after, part),
    decreases before.len(),
{
    let s = before + part + after;
    if before.len() == 0 {
        assert(s.subrange(0, part.len() as int) =~= part);
        assert(s.skip(part.len() as int) =~= after);
        assert(before + without(after, part) =~= without(after, part));
    } else {
        assert(s.skip(0) =~= s);
        let less = before.drop_first();
        assert(s.drop_first() =~= less + part + after);
        assert forall|i: int| 0 <= i < less.len() implies !part.is_prefix_of(
            #[trigger] (less + part + after).skip(i),
        ) by {
            assert((less + part + after).skip(i) =~= s.skip(i + 1));
        }
        law_first_occurrence_is_taken_out(less, part, after);
        assert(seq![s[0]] + (less + without(after, part)) =~= before + without(after, part));
    }
}

} // verus!
