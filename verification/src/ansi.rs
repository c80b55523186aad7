//! Taking terminal control codes out of chat text.

use vstd::prelude::*;

use crate::text::chars_of;

verus! {

/// Whether the character is an ASCII letter.
pub open spec fn is_letter(c: char) -> bool {
    'a' <= c <= 'z' || 'A' <= c <= 'Z'
}

/// Whether a control code is still open at the end of the text: an escape
/// character opens one, and the next letter closes it.
pub open spec fn in_code(s: Seq<char>) -> bool
    decreases s.len(),
{
    if s.len() == 0 {
        false
    } else {
        s.last() == '\u{1b}' || (in_code(s.drop_last()) && !is_letter(s.last()))
    }
}

/// The characters of the text that belong to no control code.
pub open spec fn visible(s: Seq<char>) -> Seq<char>
    decreases s.len(),
{
    if s.len() == 0 {
        seq![]
    } else if s.last() == '\u{1b}' || in_code(s.drop_last()) {
        visible(s.drop_last())
    } else {
        visible(s.drop_last()).push(s.last())
    }
}

/// Takes the control codes out of a text.
pub fn strip_ansi_codes(input: &str) -> (res: String)
    ensures
        res@ == visible(input@),
{
    let chars: Vec<char> = chars_of(input);
    let mut result: String = String::new();
    let mut open: bool = false;
    let mut i: usize = 0;
    assert(input@.take(0).len() == 0);
    while i < chars.len()
        invariant
            i <= chars@.len(),
            chars@ == input@,
            open == in_code(input@.take(i as int)),
            result@ == visible(input@.take(i as int)),
        decreases chars.len() - i,
    {
        let c: char = chars[i];
        assert(input@.take(i + 1).drop_last() =~= input@.take(i as int));
        if c == '\u{1b}' {
            open = true;
        } else if open {
            if ('a' <= c && c <= 'z') || ('A' <= c && c <= 'Z') {
                open = false;
            }
        } else {
            result.push(c);
        }
        i = i + 1;
    }
    assert(input@.take(input@.len() as int) =~= input@);
    result
}

/// No escape character is left in what is shown.
pub proof fn law_no_escape_is_left(s: Seq<char>)
    ensures
        !visible(s).contains('\u{1b}'),
    decreases s.len(),
{
    if s.len() > 0 {
        law_no_escape_is_left(s.drop_last());
        let before = visible(s.drop_last());
        if visible(s).contains('\u{1b}') {
            let i = choose|i: int| 0 <= i < visible(s).len() && visible(s)[i] == '\u{1b}';
            if i < before.len() {
                assert(before[i] == '\u{1b}');
            }
        }
    }
}

/// A text without an escape character is shown as it is.
pub proof fn law_plain_text_is_kept(s: Seq<char>)
    requires
        !s.contains('\u{1b}'),
    ensures
        visible(s) == s,
        !in_code(s),
    decreases s.len(),
{
    if s.len() > 0 {
        assert(s[s.len() - 1] == s.last());
        assert forall|i: int| 0 <= i < s.drop_last().len() implies s.drop_last()[i]
            != '\u{1b}' by {
            assert(s[i] != '\u{1b}');
        }
        law_plain_text_is_kept(s.drop_last());
        assert(s.drop_last().push(s.last()) =~= s);
    } else {
        assert(visible(s) =~= s);
    }
}

/// Taking the codes out a second time changes nothing.
pub proof fn law_stripping_twice_is_stripping_once(s: Seq<char>)
    ensures
        visible(visible(s)) == visible(s),
{
    law_no_escape_is_left(s);
    law_plain_text_is_kept(visible(s));
}

/// Where no code is open, what follows is shown as it would be on its own.
pub proof fn law_parts_are_shown_apart(a: Seq<char>, b: Seq<char>)
    requires
        !in_code(a),
    ensures
        visible(a + b) == visible(a) + visible(b),
        in_code(a + b) == in_code(b),
    decreases b.len(),
{
    if b.len() == 0 {
        assert(a + b =~= a);
        assert(visible(a) + visible(b) =~= visible(a));
    } else {
        assert((a + b).drop_last() =~= a + b.drop_last());
        law_parts_are_shown_apart(a, b.drop_last());
        assert(visible(a) + visible(b.drop_last()).push(b.last()) =~= (visible(a) + visible(
            b.drop_last(),
        )).push(b.last()));
    }
}

/// An escape character, characters that are no letters, and a letter: such a code
/// leaves no trace between the text before it and the text after it.
pub proof fn law_a_code_leaves_no_trace(
    before: Seq<char>,
    parameters: Seq<char>,
    letter: char,
    after: Seq<char>,
)
    requires
        !in_code(before),
        forall|i: int| 0 <= i < parameters.len() ==> !is_letter(#[trigger] parameters[i]),
        is_letter(letter),
    ensures
        visible(before + (seq!['\u{1b}'] + parameters).push(letter) + after) == visible(before)
            + visible(after),
{
    let open = seq!['\u{1b}'] + parameters;
    lemma_code_stays_open(parameters);
    let code = open.push(letter);
    assert(code.drop_last() =~= open);
    assert(!in_code(code));
    assert(visible(code) =~= seq![]);
    law_parts_are_shown_apart(before, code);
    law_parts_are_shown_apart(before + code, after);
    assert(visible(before) + visible(code) =~= visible(before));
}

/// Until a letter comes, a code stays open and nothing of it is shown.
proof fn lemma_code_stays_open(parameters: Seq<char>)
    requires
        forall|i: int| 0 <= i < parameters.len() ==> !is_letter(#[trigger] parameters[i]),
    ensures
        in_code(seq!['\u{1b}'] + parameters),
        visible(seq!['\u{1b}'] + parameters) == Seq::<char>::empty(),
    decreases parameters.len(),
{
    let open = seq!['\u{1b}'] + parameters;
    if parameters.len() == 0 {
        assert(open.drop_last() =~= seq![]);
        assert(open.last() == '\u{1b}');
        assert(visible(open.drop_last()) =~= seq![]);
    } else {
        lemma_code_stays_open(parameters.drop_last());
        assert(open.drop_last() =~= seq!['\u{1b}'] + parameters.drop_last());
        assert(open.last() == parameters.last());
        assert(parameters.last() == parameters[parameters.len() - 1]);
    }
}

/// A text without an escape character, then an escape character, characters that
/// are no ASCII letters, an ASCII letter, and any text: what is shown is the first
/// text and what is shown of the last.
pub proof fn law_code_ends_at_its_letter(
    plain: Seq<char>,
    parameters: Seq<char>,
    letter: char,
    after: Seq<char>,
)
    requires
        forall|i: int| 0 <= i < plain.len() ==> #[trigger] plain[i] != '\u{1b}',
        forall|i: int|
            0 <= i < parameters.len() ==> !('a' <= #[trigger] parameters[i] <= 'z') && !('A'
                <= parameters[i] <= 'Z'),
        'a' <= letter <= 'z' || 'A' <= letter <= 'Z',
    ensures
        visible(plain + (seq!['\u{1b}'] + parameters).push(letter) + after) == plain + visible(
            after,
        ),
{
    law_plain_text_is_kept(plain);
    law_a_code_leaves_no_trace(plain, parameters, letter, after);
}

/// A code that no ASCII letter ends hides everything from its escape character on.
pub proof fn law_open_code_hides_the_rest(plain: Seq<char>, rest: Seq<char>)
    requires
        forall|i: int| 0 <= i < plain.len() ==> #[trigger] plain[i] != '\u{1b}',
        forall|i: int|
            0 <= i < rest.len() ==> !('a' <= #[trigger] rest[i] <= 'z') && !('A' <= rest[i]
                <= 'Z'),
    ensures
        visible(plain + (seq!['\u{1b}'] + rest)) == plain,
{
    law_plain_text_is_kept(plain);
    lemma_code_stays_open(rest);
    law_parts_are_shown_apart(plain, seq!['\u{1b}'] + rest);
    assert(plain + Seq::<char>::empty() =~= plain);
}

} // verus!
