//! Finding the plaintext of a cached account file.
//!
//! The file may be plain JSON, or be hidden under one of several keys: a fixed
//! one, the second in which the file was created, or `0` where that second was
//! not known when the file was written. Where a file was moved and its creation
//! time lost, a timestamp of ten digits is recovered from the way the JSON
//! inside is known to start.

use vstd::prelude::*;
use vstd::utf8::encode_utf8;

use crate::cipher::decrypt_bytes;
use crate::cipher::xored;
use crate::decimal::decimal;
use crate::decimal::decimal_bytes;
use crate::decimal::lemma_decimal_digits;
use crate::decimal::lemma_ten_digits;

verus! {

/// The key under which files are hidden regardless of when they were created.
pub open spec fn fixed_key() -> Seq<u8> {
    encode_utf8("azalea-auth-cache-obfuscation-key"@)
}

/// The start of a list of accounts written over several lines: `[`, a line break,
/// two spaces, `{`, a line break, four spaces.
pub open spec fn pretty_start() -> Seq<u8> {
    seq![91, 10, 32, 32, 123, 10, 32, 32, 32, 32]
}

/// The start of a list of accounts written on one line: `[{"cache_k`.
pub open spec fn compact_start() -> Seq<u8> {
    seq![91, 123, 34, 99, 97, 99, 104, 101, 95, 107]
}

/// The key that turns the first bytes of the file into the given start.
pub open spec fn key_for_start(contents: Seq<u8>, start: Seq<u8>) -> Seq<u8> {
    Seq::new(start.len(), |i: int| contents[i] ^ start[i])
}

/// Whether every byte is an ASCII digit.
pub open spec fn all_digits(bytes: Seq<u8>) -> bool {
    forall|i: int| 0 <= i < bytes.len() ==> 48 <= #[trigger] bytes[i] <= 57
}

/// The plaintext that a file has if it starts as given and is hidden under a
/// timestamp as long as that start, if that can be.
pub open spec fn recovered(contents: Seq<u8>, start: Seq<u8>) -> Seq<Seq<u8>> {
    let key = key_for_start(contents, start);
    if contents.len() >= start.len() && all_digits(key) {
        seq![xored(contents, key)]
    } else {
        seq![]
    }
}

/// The plaintext under the second in which the file was created, where known.
pub open spec fn under_creation_time(contents: Seq<u8>, created_secs: Option<u64>) -> Seq<
    Seq<u8>,
> {
    match created_secs {
        Some(secs) => seq![xored(contents, decimal_bytes(secs as nat))],
        None => seq![],
    }
}

/// What the file may hold, in the order in which it is tried.
pub open spec fn candidates(contents: Seq<u8>, created_secs: Option<u64>) -> Seq<Seq<u8>> {
    seq![contents, xored(contents, fixed_key())] + under_creation_time(contents, created_secs)
        + seq![xored(contents, decimal_bytes(0))] + recovered(contents, pretty_start())
        + recovered(contents, compact_start())
}

/// The views of a list of byte strings.
pub open spec fn byte_views(list: Seq<Vec<u8>>) -> Seq<Seq<u8>> {
    Seq::new(list.len(), |i: int| list[i]@)
}

/// Whether `parse`, called on these bytes, may give this answer.
pub open spec fn answers<T, F: Fn(&[u8]) -> Option<T>>(
    parse: F,
    bytes: Seq<u8>,
    answer: Option<T>,
) -> bool {
    exists|b: &[u8]| b@ == bytes && #[trigger] call_ensures(parse, (b,), answer)
}

/// Whether `res` is the answer of `parse` to the first of the byte strings that it
/// does not turn down, or nothing where it turns down all of them.
pub open spec fn first_accepted<T, F: Fn(&[u8]) -> Option<T>>(
    parse: F,
    list: Seq<Seq<u8>>,
    res: Option<T>,
) -> bool {
    match res {
        Some(_) => exists|i: int|
            {
                &&& 0 <= i < list.len()
                &&& answers(parse, #[trigger] list[i], res)
                &&& forall|j: int| 0 <= j < i ==> answers(parse, #[trigger] list[j], None)
            },
        None => forall|j: int| 0 <= j < list.len() ==> answers(parse, #[trigger] list[j], None),
    }
}

/// Computes the plaintext of `recovered` and adds it to the list.
fn push_recovered(list: &mut Vec<Vec<u8>>, contents: &[u8], start: &[u8])
    requires
        start@.len() > 0,
    ensures
        byte_views(final(list)@) == byte_views(old(list)@) + recovered(contents@, start@),
{
    if contents.len() < start.len() {
        assert(byte_views(list@) =~= byte_views(old(list)@) + recovered(contents@, start@));
        return;
    }
    let mut key: Vec<u8> = Vec::new();
    let mut digits: bool = true;
    let mut i: usize = 0;
    while i < start.len()
        invariant
            i <= start@.len() <= contents@.len(),
            key@ == key_for_start(contents@, start@).take(i as int),
            digits == all_digits(key@),
        decreases start.len() - i,
    {
        let byte: u8 = contents[i] ^ start[i];
        let ghost before = key@;
        key.push(byte);
        assert(key@ =~= key_for_start(contents@, start@).take(i + 1));
        assert(forall|j: int| 0 <= j < i ==> key@[j] == before[j]);
        assert(key@[i as int] == byte);
        if byte < 48 || byte > 57 {
            digits = false;
            assert(!all_digits(key@));
        } else {
            proof {
                if !all_digits(before) {
                    let j = choose|j: int|
                        0 <= j < before.len() && !(48 <= #[trigger] before[j] <= 57);
                    assert(key@[j] == before[j]);
                }
            }
        }
        i = i + 1;
    }
    assert(key@ =~= key_for_start(contents@, start@));
    if digits {
        list.push(decrypt_bytes(contents, key.as_slice()));
    }
    assert(byte_views(list@) =~= byte_views(old(list)@) + recovered(contents@, start@));
}

/// Everything that the file may hold, the likeliest first.
pub fn cache_candidates(contents: &[u8], created_secs: Option<u64>) -> (res: Vec<Vec<u8>>)
    ensures
        byte_views(res@) == candidates(contents@, created_secs),
{
    let mut res: Vec<Vec<u8>> = Vec::new();
    let none: [u8; 0] = [];
    res.push(decrypt_bytes(contents, none.as_slice()));
    res.push(decrypt_bytes(contents, "azalea-auth-cache-obfuscation-key".as_bytes()));
    assert(byte_views(res@) =~= seq![contents@, xored(contents@, fixed_key())]);
    let ghost two = byte_views(res@);
    match created_secs {
        Some(secs) => {
            let key: Vec<u8> = decimal(secs);
            res.push(decrypt_bytes(contents, key.as_slice()));
        },
        None => {},
    }
    assert(byte_views(res@) =~= two + under_creation_time(contents@, created_secs));
    let ghost three = byte_views(res@);
    let key: Vec<u8> = decimal(0);
    res.push(decrypt_bytes(contents, key.as_slice()));
    assert(byte_views(res@) =~= three + seq![xored(contents@, decimal_bytes(0))]);
    let pretty: [u8; 10] = [91, 10, 32, 32, 123, 10, 32, 32, 32, 32];
    assert(pretty@ =~= pretty_start());
    push_recovered(&mut res, contents, pretty.as_slice());
    let compact: [u8; 10] = [91, 123, 34, 99, 97, 99, 104, 101, 95, 107];
    assert(compact@ =~= compact_start());
    push_recovered(&mut res, contents, compact.as_slice());
    res
}

/// Reads a cached account file: `parse` is tried on everything that the file may
/// hold, and its first answer counts.
pub fn decrypt_and_parse_cache<T, F: Fn(&[u8]) -> Option<T>>(
    contents: &[u8],
    created_secs: Option<u64>,
    parse: F,
) -> (res: Option<T>)
    requires
        forall|b: &[u8]| call_requires(parse, (b,)),
    ensures
        first_accepted(parse, candidates(contents@, created_secs), res),
{
    let list: Vec<Vec<u8>> = cache_candidates(contents, created_secs);
    let ghost all = candidates(contents@, created_secs);
    let mut i: usize = 0;
    while i < list.len()
        invariant
            i <= list@.len(),
            all == candidates(contents@, created_secs),
            byte_views(list@) == all,
            forall|b: &[u8]| call_requires(parse, (b,)),
            forall|j: int| 0 <= j < i ==> answers(parse, #[trigger] all[j], None),
        decreases list.len() - i,
    {
        let bytes: &[u8] = list[i].as_slice();
        assert(bytes@ == all[i as int]);
        let answer: Option<T> = parse(bytes);
        assert(answers(parse, all[i as int], answer));
        if answer.is_some() {
            return answer;
        }
        i = i + 1;
    }
    None
}

/// Whatever key a file was hidden under, its plaintext is among what is tried:
/// none, the fixed key, the second of its creation where that is still known,
/// and `0`.
pub proof fn law_known_keys_are_tried(plain: Seq<u8>, created_secs: Option<u64>, secs: u64)
    ensures
        candidates(plain, created_secs)[0] == plain,
        candidates(xored(plain, fixed_key()), created_secs)[1] == plain,
        candidates(xored(plain, decimal_bytes(secs as nat)), Some(secs))[2] == plain,
        candidates(xored(plain, decimal_bytes(0)), created_secs).contains(plain),
{
    crate::cipher::law_decrypt_undoes_itself(plain, fixed_key());
    crate::cipher::law_decrypt_undoes_itself(plain, decimal_bytes(secs as nat));
    crate::cipher::law_decrypt_undoes_itself(plain, decimal_bytes(0));
    let last = candidates(xored(plain, decimal_bytes(0)), created_secs);
    if created_secs is Some {
        assert(last[3] == plain);
    } else {
        assert(last[2] == plain);
    }
}

/// A file hidden under any ten digits, leading zeros among them, can still be read
/// when its creation time is lost or wrong, if its plaintext starts in either
/// known way.
pub proof fn law_ten_digits_are_recovered(
    plain: Seq<u8>,
    key: Seq<u8>,
    created_secs: Option<u64>,
)
    requires
        key.len() == 10,
        all_digits(key),
        pretty_start().is_prefix_of(plain) || compact_start().is_prefix_of(plain),
    ensures
        candidates(xored(plain, key), created_secs).contains(plain),
{
    let hidden = xored(plain, key);
    crate::cipher::law_decrypt_undoes_itself(plain, key);
    let start = if pretty_start().is_prefix_of(plain) {
        pretty_start()
    } else {
        compact_start()
    };
    assert(start.len() == 10);
    assert forall|i: int| 0 <= i < 10 implies #[trigger] key_for_start(hidden, start)[i]
        == key[i] by {
        let a: u8 = plain[i];
        let b: u8 = key[i];
        assert(i % 10 == i);
        assert(hidden[i] == a ^ b);
        assert(plain.subrange(0, 10)[i] == start[i]);
        assert((a ^ b) ^ a == b) by (bit_vector);
    }
    assert(key_for_start(hidden, start) =~= key);
    assert(recovered(hidden, start) == seq![plain]);
    let all = candidates(hidden, created_secs);
    let front = seq![hidden, xored(hidden, fixed_key())] + under_creation_time(
        hidden,
        created_secs,
    ) + seq![xored(hidden, decimal_bytes(0))];
    if pretty_start().is_prefix_of(plain) {
        assert(all[front.len() as int] == plain);
    } else {
        let more = front + recovered(hidden, pretty_start());
        assert(all[more.len() as int] == plain);
    }
}

/// A file hidden under a second that takes ten digits can still be read when its
/// creation time is lost or wrong, if its plaintext starts in either known way.
pub proof fn law_timestamp_is_recovered(plain: Seq<u8>, secs: nat, created_secs: Option<u64>)
    requires
        1_000_000_000 <= secs < 10_000_000_000,
        pretty_start().is_prefix_of(plain) || compact_start().is_prefix_of(plain),
    ensures
        candidates(xored(plain, decimal_bytes(secs)), created_secs).contains(plain),
{
    lemma_decimal_digits(secs);
    lemma_ten_digits(secs);
    law_ten_digits_are_recovered(plain, decimal_bytes(secs), created_secs);
}

/// A file is read wherever one of the byte strings that are tried is one that
/// `parse` never turns down.
pub proof fn law_acceptable_plaintext_is_read<T, F: Fn(&[u8]) -> Option<T>>(
    parse: F,
    list: Seq<Seq<u8>>,
    plain: Seq<u8>,
    res: Option<T>,
)
    requires
        first_accepted(parse, list, res),
        list.contains(plain),
        !answers(parse, plain, None),
    ensures
        res is Some,
{
    let i = choose|i: int| 0 <= i < list.len() && list[i] == plain;
    if res is None {
        assert(answers(parse, list[i], None));
    }
}

/// What is read is what `parse` makes of the plaintext, wherever it can only make
/// one thing of it and turns down everything that is tried before.
pub proof fn law_plaintext_is_read_as_it_is<T, F: Fn(&[u8]) -> Option<T>>(
    parse: F,
    list: Seq<Seq<u8>>,
    place: int,
    value: T,
    res: Option<T>,
)
    requires
        first_accepted(parse, list, res),
        0 <= place < list.len(),
        forall|a: Option<T>| #[trigger] answers(parse, list[place], a) ==> a == Some(value),
        forall|j: int, a: Option<T>|
            0 <= j < place && #[trigger] answers(parse, list[j], a) ==> a is None,
    ensures
        res == Some(value),
{
    if res is None {
        assert(answers(parse, list[place], None));
    } else {
        let i = choose|i: int|
            {
                &&& 0 <= i < list.len()
                &&& answers(parse, #[trigger] list[i], res)
                &&& forall|j: int| 0 <= j < i ==> answers(parse, #[trigger] list[j], None)
            };
        if i > place {
            assert(answers(parse, list[place], None));
        }
        assert(answers(parse, list[i], res));
    }
}

/// Whether a file holds this plaintext, byte for byte under the repeated key.
pub open spec fn holds_under(file: Seq<u8>, plain: Seq<u8>, key: Seq<u8>) -> bool {
    &&& file.len() == plain.len()
    &&& key.len() > 0
    &&& forall|i: int|
        0 <= i < file.len() ==> #[trigger] file[i] == plain[i] ^ key[i % (key.len() as int)]
}

proof fn lemma_plaintext_comes_out(file: Seq<u8>, plain: Seq<u8>, key: Seq<u8>)
    requires
        holds_under(file, plain, key),
    ensures
        xored(file, key) == plain,
{
    assert forall|i: int| 0 <= i < file.len() implies #[trigger] xored(file, key)[i] == plain[i] by {
        assert(file[i] == plain[i] ^ key[i % (key.len() as int)]);
        let a: u8 = plain[i];
        let b: u8 = key[i % (key.len() as int)];
        assert((a ^ b) ^ b == a) by (bit_vector);
    }
    assert(xored(file, key) =~= plain);
}

/// The order in which a file is read: as it is, under the fixed key, under the second
/// in which it was created, where that is known, and under the digit zero, each
/// giving the plaintext back that the file holds under that key. After these there
/// are at most two more attempts.
pub proof fn law_keys_are_tried_in_this_order(
    file: Seq<u8>,
    plain: Seq<u8>,
    created_secs: Option<u64>,
)
    ensures
        ({
            let tried = candidates(file, created_secs);
            let known: int = if created_secs is Some {
                4
            } else {
                3
            };
            &&& tried[0] == file
            &&& holds_under(
                file,
                plain,
                encode_utf8("azalea-auth-cache-obfuscation-key"@),
            ) ==> tried[1] == plain
            &&& created_secs matches Some(secs) ==> (holds_under(
                file,
                plain,
                decimal_bytes(secs as nat),
            ) ==> tried[2] == plain)
            &&& holds_under(file, plain, seq![48u8]) ==> tried[known - 1] == plain
            &&& known <= tried.len() <= known + 2
        }),
{
    let tried = candidates(file, created_secs);
    let fixed = encode_utf8("azalea-auth-cache-obfuscation-key"@);
    if holds_under(file, plain, fixed) {
        lemma_plaintext_comes_out(file, plain, fixed);
        assert(tried[1] == xored(file, fixed));
    }
    if let Some(secs) = created_secs {
        if holds_under(file, plain, decimal_bytes(secs as nat)) {
            lemma_plaintext_comes_out(file, plain, decimal_bytes(secs as nat));
            assert(tried[2] == xored(file, decimal_bytes(secs as nat)));
        }
    }
    assert(decimal_bytes(0) =~= seq![48u8]);
    if holds_under(file, plain, seq![48u8]) {
        lemma_plaintext_comes_out(file, plain, seq![48u8]);
        if created_secs is Some {
            assert(tried[3] == xored(file, seq![48u8]));
        } else {
            assert(tried[2] == xored(file, seq![48u8]));
        }
    }
}

/// Whether the bytes start with `[`, a line break, two spaces, `{`, a line break and
/// four spaces.
pub open spec fn starts_over_lines(plain: Seq<u8>) -> bool {
    plain.len() >= 10 && plain.take(10) == seq![91u8, 10, 32, 32, 123, 10, 32, 32, 32, 32]
}

/// Whether the bytes start with `[{"cache_k`.
pub open spec fn starts_on_one_line(plain: Seq<u8>) -> bool {
    plain.len() >= 10 && plain.take(10) == seq![91u8, 123, 34, 99, 97, 99, 104, 101, 95, 107]
}

proof fn lemma_start_gives_key(file: Seq<u8>, plain: Seq<u8>, key: Seq<u8>, start: Seq<u8>)
    requires
        holds_under(file, plain, key),
        key.len() == 10,
        start.len() == 10,
        plain.len() >= 10,
        plain.take(10) == start,
        all_digits(key),
    ensures
        recovered(file, start) == seq![plain],
{
    lemma_plaintext_comes_out(file, plain, key);
    assert forall|i: int| 0 <= i < 10 implies #[trigger] key_for_start(file, start)[i]
        == key[i] by {
        let a: u8 = plain[i];
        let b: u8 = key[i];
        assert(i % 10 == i);
        assert(plain.take(10)[i] == start[i]);
        assert(file[i] == plain[i] ^ key[i % (key.len() as int)]);
        assert((a ^ b) ^ a == b) by (bit_vector);
    }
    assert(key_for_start(file, start) =~= key);
}

/// A file that holds its plaintext under any ten digits is read after the known keys
/// were tried: at once where the plaintext starts over several lines, and at the
/// last attempt where it starts on one line.
pub proof fn law_recovered_after_the_known_keys(
    file: Seq<u8>,
    plain: Seq<u8>,
    key: Seq<u8>,
    created_secs: Option<u64>,
)
    requires
        holds_under(file, plain, key),
        key.len() == 10,
        forall|i: int| 0 <= i < 10 ==> 48 <= #[trigger] key[i] <= 57,
    ensures
        ({
            let tried = candidates(file, created_secs);
            let known: int = if created_secs is Some {
                4
            } else {
                3
            };
            &&& starts_over_lines(plain) ==> tried.len() > known && tried[known] == plain
            &&& starts_on_one_line(plain) ==> tried.len() > known && tried[tried.len() - 1] == plain
        }),
{
    if starts_over_lines(plain) {
        assert(pretty_start() =~= seq![91u8, 10, 32, 32, 123, 10, 32, 32, 32, 32]);
        lemma_start_gives_key(file, plain, key, pretty_start());
    }
    if starts_on_one_line(plain) {
        assert(compact_start() =~= seq![91u8, 123, 34, 99, 97, 99, 104, 101, 95, 107]);
        lemma_start_gives_key(file, plain, key, compact_start());
    }
}

proof fn lemma_recovered_starts(file: Seq<u8>, start: Seq<u8>, m: int)
    requires
        start.len() == 10,
        recovered(file, start).len() > 0,
        0 <= m < 10,
    ensures
        recovered(file, start).len() == 1,
        recovered(file, start)[0].len() == file.len() >= 10,
        recovered(file, start)[0].take(10) == start,
        48 <= recovered(file, start)[0][m] ^ file[m] <= 57,
{
    let key = key_for_start(file, start);
    let plain = xored(file, key);
    assert forall|i: int| 0 <= i < 10 implies #[trigger] plain[i] == start[i] by {
        let a: u8 = file[i];
        let b: u8 = start[i];
        assert(i % 10 == i);
        assert(key[i] == a ^ b);
        assert(a ^ (a ^ b) == b) by (bit_vector);
    }
    assert(plain.take(10) =~= start);
    crate::cipher::law_key_is_repeated_to_the_end(file, key);
    assert(m % 10 == m);
    assert(48 <= key[m] <= 57);
    assert(xored(file, key)[m] ^ file[m] == key[m % (key.len() as int)]);
}

/// What is tried after the known keys starts in one of the two ways, and differs from
/// the file by a digit in each of its first ten bytes; of two such attempts the first
/// starts over several lines and the second on one line.
pub proof fn law_only_timestamps_are_recovered(
    file: Seq<u8>,
    created_secs: Option<u64>,
    place: int,
    m: int,
)
    requires
        ({
            let known: int = if created_secs is Some {
                4
            } else {
                3
            };
            known <= place < candidates(file, created_secs).len()
        }),
        0 <= m < 10,
    ensures
        ({
            let tried = candidates(file, created_secs);
            let known: int = if created_secs is Some {
                4
            } else {
                3
            };
            &&& tried[place].len() == file.len() >= 10
            &&& starts_over_lines(tried[place]) || starts_on_one_line(tried[place])
            &&& 48 <= tried[place][m] ^ file[m] <= 57
            &&& tried.len() == known + 2 ==> starts_over_lines(tried[known])
                && starts_on_one_line(tried[known + 1])
        }),
{
    let tried = candidates(file, created_secs);
    let known: int = if created_secs is Some {
        4
    } else {
        3
    };
    assert(pretty_start() =~= seq![91u8, 10, 32, 32, 123, 10, 32, 32, 32, 32]);
    assert(compact_start() =~= seq![91u8, 123, 34, 99, 97, 99, 104, 101, 95, 107]);
    if recovered(file, pretty_start()).len() > 0 {
        lemma_recovered_starts(file, pretty_start(), m);
        assert(tried[known] == recovered(file, pretty_start())[0]);
    }
    if recovered(file, compact_start()).len() > 0 {
        lemma_recovered_starts(file, compact_start(), m);
        assert(tried[tried.len() - 1] == recovered(file, compact_start())[0]);
    }
}

/// The answer is the one that `parse` gives to the first byte string that it does not
/// turn down, wherever it can give one answer only; and there is none where it turns
/// down all of them.
pub proof fn law_first_answer_counts<T, F: Fn(&[u8]) -> Option<T>>(
    parse: F,
    list: Seq<Seq<u8>>,
    place: int,
    value: T,
    res: Option<T>,
)
    requires
        first_accepted(parse, list, res),
        0 <= place <= list.len(),
        forall|j: int, b: &[u8], a: Option<T>|
            #![trigger list[j], call_ensures(parse, (b,), a)]
            0 <= j < place && b@ == list[j] && call_ensures(parse, (b,), a) ==> a is None,
        place < list.len() ==> forall|b: &[u8], a: Option<T>|
            b@ == list[place] && #[trigger] call_ensures(parse, (b,), a) ==> a == Some(value),
    ensures
        place < list.len() ==> res == Some(value),
        place == list.len() ==> res is None,
{
    if let Some(_) = res {
        let i = choose|i: int|
            {
                &&& 0 <= i < list.len()
                &&& answers(parse, #[trigger] list[i], res)
                &&& forall|j: int| 0 <= j < i ==> answers(parse, #[trigger] list[j], None)
            };
        let b = choose|b: &[u8]| b@ == list[i] && #[trigger] call_ensures(parse, (b,), res);
        assert(b@ == list[i] && call_ensures(parse, (b,), res));
        assert(i >= place);
        if i > place {
            assert(answers(parse, list[place], None));
            let c = choose|c: &[u8]|
                c@ == list[place] && #[trigger] call_ensures(parse, (c,), None::<T>);
            assert(call_ensures(parse, (c,), None::<T>));
        }
    } else if place < list.len() {
        assert(answers(parse, list[place], None));
        let c = choose|c: &[u8]|
            c@ == list[place] && #[trigger] call_ensures(parse, (c,), None::<T>);
        assert(call_ensures(parse, (c,), None::<T>));
    }
}

/// The views of a list of byte strings leave nothing out.
pub proof fn law_byte_strings_are_shown_whole(list: Seq<Vec<u8>>, i: int)
    requires
        0 <= i < list.len(),
    ensures
        byte_views(list).len() == list.len(),
        byte_views(list)[i] == list[i]@,
{
}

} // verus!
