//! The cipher engine: a Caesar substitution cipher over the 26 uppercase
//! Latin letters. Each letter is case-folded to uppercase, its alphabet
//! position is shifted forward (encode) or backward (decode) modulo 26, and
//! the letter at the new position replaces it. Any character without an
//! alphabet position is rejected.

use vstd::prelude::*;

verus! {

/// Direction of the shift: forward to encode, backward to decode.
#[derive(Clone, Copy, Debug, PartialEq, Eq, Structural)]
pub enum Operation {
    Encode,
    Decode,
}

/// Failure of the cipher engine.
#[derive(Clone, Copy, Debug, PartialEq, Eq, Structural)]
pub enum CipherError {
    /// A character of the word has no alphabet position (it is not an
    /// ASCII letter).
    InvalidCharacter,
}

/// The number of letters in the alphabet.
pub const ALPHABET_LEN: u8 = 26;

/// True of the characters the cipher accepts: ASCII letters, of either case.
pub open spec fn is_letter(c: char) -> bool {
    ('A' as int <= c as int && c as int <= 'Z' as int) || ('a' as int <= c as int && c as int
        <= 'z' as int)
}

/// True when every character of the word is an ASCII letter.
pub open spec fn all_letters(s: Seq<char>) -> bool {
    forall|i: int| 0 <= i < s.len() ==> is_letter(s[i])
}

/// ASCII uppercase folding: a lowercase letter moves to its uppercase
/// counterpart; every other character stays as it is.
pub open spec fn to_upper(c: char) -> char {
    if 'a' as int <= c as int && c as int <= 'z' as int {
        ((c as int - 32) as u8) as char
    } else {
        c
    }
}

/// The word with every character folded to uppercase.
pub open spec fn upper_seq(s: Seq<char>) -> Seq<char> {
    s.map_values(|c: char| to_upper(c))
}

/// The zero-based alphabet position of a letter, after case folding:
/// 0 for 'A' or 'a', 25 for 'Z' or 'z'.
pub open spec fn letter_pos(c: char) -> int {
    to_upper(c) as int - 'A' as int
}

/// The uppercase letter at alphabet position `p`, for `p` in [0, 26).
pub open spec fn letter_at(p: int) -> char {
    (('A' as int + p) as u8) as char
}

/// One character encoded: its position moves forward by the shift, modulo 26.
pub open spec fn encode_char(c: char, shift: int) -> char {
    letter_at((letter_pos(c) + shift) % 26)
}

/// One character decoded: its position moves back by the shift. The shift is
/// reduced modulo 26 before the subtraction, so the intermediate value never
/// goes negative.
pub open spec fn decode_char(c: char, shift: int) -> char {
    letter_at((letter_pos(c) + 26 - (shift % 26)) % 26)
}

/// One character transformed in the given direction.
pub open spec fn cipher_char(c: char, shift: int, operation: Operation) -> char {
    match operation {
        Operation::Encode => encode_char(c, shift),
        Operation::Decode => decode_char(c, shift),
    }
}

/// The whole word transformed, character by character.
pub open spec fn cipher_seq(s: Seq<char>, shift: int, operation: Operation) -> Seq<char> {
    s.map_values(|c: char| cipher_char(c, shift, operation))
}

/// The whole word encoded.
pub open spec fn encode_seq(s: Seq<char>, shift: int) -> Seq<char> {
    cipher_seq(s, shift, Operation::Encode)
}

/// The whole word decoded.
pub open spec fn decode_seq(s: Seq<char>, shift: int) -> Seq<char> {
    cipher_seq(s, shift, Operation::Decode)
}

/// Relies on String::push: it appends the given character to the end of the
/// string.
#[verifier::external_body]
fn push_char(s: &mut String, c: char)
    ensures
        final(s)@ == old(s)@.push(c),
{
    s.push(c);
}

/// Transform a word, letter by letter, in the given direction. Every
/// character is first folded to uppercase, so the result is always
/// uppercase. A word holding any character that is not an ASCII letter is
/// rejected with `InvalidCharacter`, and only such a word is.
pub fn ciphered_core(word: &String, caesar_code_arg: u8, operation: Operation) -> (result: Result<
    String,
    CipherError,
>)
    ensures
        result is Ok <==> all_letters(word@),
        result matches Ok(w) ==> w@ == cipher_seq(word@, caesar_code_arg as int, operation)
            && w@.len() == word@.len(),
        result matches Err(e) ==> e == CipherError::InvalidCharacter,
{
    broadcast use vstd::prelude::Seq::lemma_map_take_succ;

    let ws: &str = word.as_str();
    if !ws.is_ascii() {
        proof {
            let j = choose|j: int|
                0 <= j < word@.len() && !('\0' <= word@[j] && word@[j] <= '\u{7f}');
            assert(!is_letter(word@[j]));
        }
        return Err(CipherError::InvalidCharacter);
    }
    let n: usize = ws.unicode_len();
    let mut out: String = String::new();
    let mut i: usize = 0;
    while i < n
        invariant
            i <= n,
            n == word@.len(),
            ws@ == word@,
            vstd::string::is_ascii(ws),
            forall|j: int| 0 <= j < i ==> is_letter(word@[j]),
            out@ == cipher_seq(word@.take(i as int), caesar_code_arg as int, operation),
        decreases n - i,
    {
        let b: u8 = ws.get_ascii(i);
        proof {
            assert(word@[i as int] <= '\u{7f}');
            assert(word@[i as int] as int == b as int);
        }
        let up: u8 = if 97 <= b && b <= 122 {
            b - 32
        } else {
            b
        };
        if up < 65 || up > 90 {
            assert(!is_letter(word@[i as int]));
            return Err(CipherError::InvalidCharacter);
        }
        assert(up == to_upper(word@[i as int]) as int);
        let p: u8 = up - 65;
        let k: u8 = caesar_code_arg % ALPHABET_LEN;
        let np: u8 = match operation {
            Operation::Encode => (p + k) % ALPHABET_LEN,
            Operation::Decode => (p + ALPHABET_LEN - k) % ALPHABET_LEN,
        };
        let oc: char = (np + 65) as char;
        proof {
            lemma_shift_absorbed(p as int, caesar_code_arg as int);
            assert(oc == cipher_char(word@[i as int], caesar_code_arg as int, operation));
        }
        push_char(&mut out, oc);
        i = i + 1;
    }
    proof {
        assert(word@.take(n as int) =~= word@);
    }
    Ok(out)
}

/// Encode a word: shift each letter's alphabet position forward, modulo 26.
/// The result is uppercase and exactly as long as the word; a word holding
/// any character that is not an ASCII letter is rejected with
/// `InvalidCharacter`, and only such a word is.
pub fn encode_word(word: &String, caesar_code_arg: u8) -> (result: Result<String, CipherError>)
    ensures
        result is Ok <==> all_letters(word@),
        result matches Ok(w) ==> w@ == encode_seq(word@, caesar_code_arg as int) && w@.len()
            == word@.len(),
        result matches Err(e) ==> e == CipherError::InvalidCharacter,
{
    ciphered_core(word, caesar_code_arg, Operation::Encode)
}

/// Decode a word: shift each letter's alphabet position back, modulo 26.
/// The result is uppercase and exactly as long as the word; a word holding
/// any character that is not an ASCII letter is rejected with
/// `InvalidCharacter`, and only such a word is.
pub fn decode_word(word: &String, caesar_code_arg: u8) -> (result: Result<String, CipherError>)
    ensures
        result is Ok <==> all_letters(word@),
        result matches Ok(w) ==> w@ == decode_seq(word@, caesar_code_arg as int) && w@.len()
            == word@.len(),
        result matches Err(e) ==> e == CipherError::InvalidCharacter,
{
    ciphered_core(word, caesar_code_arg, Operation::Decode)
}

/// Adding a shift reduced modulo 26 moves a position to the same place as
/// adding the shift itself.
proof fn lemma_shift_absorbed(p: int, shift: int)
    ensures
        (p + (shift % 26)) % 26 == (p + shift) % 26,
{
    vstd::arithmetic::div_mod::lemma_add_mod_noop_right(p, shift, 26);
}

/// Folding a letter to uppercase lands between 'A' and 'Z', keeps the
/// alphabet position in [0, 26), and is idempotent.
proof fn lemma_letter_bounds(c: char)
    requires
        is_letter(c),
    ensures
        'A' as int <= to_upper(c) as int <= 'Z' as int,
        0 <= letter_pos(c) < 26,
        to_upper(to_upper(c)) == to_upper(c),
{
}

/// One letter, encoded and then decoded with the same shift, comes back as
/// its uppercase form.
proof fn lemma_round_trip_char(c: char, shift: int)
    requires
        is_letter(c),
        0 <= shift <= 25,
    ensures
        decode_char(encode_char(c, shift), shift) == to_upper(c),
{
    lemma_letter_bounds(c);
    let p = letter_pos(c);
    let q = (p + shift) % 26;
    vstd::arithmetic::div_mod::lemma_mod_pos_bound(p + shift, 26);
    let e = encode_char(c, shift);
    assert(e as int == 'A' as int + q);
    assert(to_upper(e) == e);
    assert(letter_pos(e) == q);
    vstd::arithmetic::div_mod::lemma_small_mod(shift as nat, 26);
    vstd::arithmetic::div_mod::lemma_small_mod(p as nat, 26);
    if p + shift < 26 {
        vstd::arithmetic::div_mod::lemma_small_mod((p + shift) as nat, 26);
        vstd::arithmetic::div_mod::lemma_mod_add_multiples_vanish(p, 26);
        assert((q + 26 - shift) % 26 == p);
    } else {
        vstd::arithmetic::div_mod::lemma_mod_sub_multiples_vanish(p + shift, 26);
        vstd::arithmetic::div_mod::lemma_small_mod((p + shift - 26) as nat, 26);
        assert(q == p + shift - 26);
        assert((q + 26 - shift) % 26 == p);
    }
}

/// A word encoded and then decoded with the same shift comes back as its
/// uppercase form: for every word of letters and every shift in [0, 25],
/// `decode_seq(encode_seq(word, shift), shift)` is `upper_seq(word)`.
pub proof fn lemma_round_trip(s: Seq<char>, shift: int)
    requires
        all_letters(s),
        0 <= shift <= 25,
    ensures
        decode_seq(encode_seq(s, shift), shift) == upper_seq(s),
{
    let enc = encode_seq(s, shift);
    assert forall|i: int| 0 <= i < s.len() implies decode_seq(enc, shift)[i] == upper_seq(s)[i] by {
        assert(is_letter(s[i]));
        lemma_round_trip_char(s[i], shift);
    }
    assert(decode_seq(enc, shift) =~= upper_seq(s));
}

/// A shift of zero changes no position: either direction with shift 0 only
/// folds the word to uppercase.
pub proof fn lemma_identity_shift(s: Seq<char>, operation: Operation)
    requires
        all_letters(s),
    ensures
        cipher_seq(s, 0, operation) == upper_seq(s),
{
    assert forall|i: int| 0 <= i < s.len() implies cipher_seq(s, 0, operation)[i] == upper_seq(
        s,
    )[i] by {
        assert(is_letter(s[i]));
        lemma_letter_bounds(s[i]);
        let p = letter_pos(s[i]);
        vstd::arithmetic::div_mod::lemma_small_mod(p as nat, 26);
        vstd::arithmetic::div_mod::lemma_mod_add_multiples_vanish(p, 26);
        assert(cipher_char(s[i], 0, operation) == to_upper(s[i]));
    }
    assert(cipher_seq(s, 0, operation) =~= upper_seq(s));
}

/// Case never matters: a word and its uppercase form transform to the same
/// result, in either direction and for every shift.
pub proof fn lemma_case_normalization(s: Seq<char>, shift: int, operation: Operation)
    ensures
        cipher_seq(s, shift, operation) == cipher_seq(upper_seq(s), shift, operation),
{
    assert forall|i: int| 0 <= i < s.len() implies cipher_seq(s, shift, operation)[i] == cipher_seq(
        upper_seq(s),
        shift,
        operation,
    )[i] by {
        assert(to_upper(to_upper(s[i])) == to_upper(s[i]));
    }
    assert(cipher_seq(s, shift, operation) =~= cipher_seq(upper_seq(s), shift, operation));
}

/// Only the shift modulo 26 matters when encoding: a shift of 29 encodes as
/// a shift of 3 does.
pub proof fn lemma_large_shift(s: Seq<char>, shift: int)
    requires
        0 <= shift,
    ensures
        encode_seq(s, shift) == encode_seq(s, shift % 26),
{
    assert forall|i: int| 0 <= i < s.len() implies encode_seq(s, shift)[i] == encode_seq(
        s,
        shift % 26,
    )[i] by {
        lemma_shift_absorbed(letter_pos(s[i]), shift);
        vstd::arithmetic::div_mod::lemma_mod_pos_bound(shift, 26);
        vstd::arithmetic::div_mod::lemma_small_mod((shift % 26) as nat, 26);
        assert((letter_pos(s[i]) + shift) % 26 == (letter_pos(s[i]) + shift % 26) % 26);
    }
    assert(encode_seq(s, shift) =~= encode_seq(s, shift % 26));
}

} // verus!
