//! Identifier translation: the store addresses a document by a 12-byte
//! identifier whose canonical string form is 24 lowercase hexadecimal
//! digits. Parsing accepts either letter case and canonicalizes; the
//! store assigns fresh identifiers from a counter that never repeats.

use vstd::prelude::*;
use vstd::string::*;

verus! {

/// A character accepted inside an identifier string.
pub open spec fn is_hex_digit(c: char) -> bool {
    ('0' <= c && c <= '9') || ('a' <= c && c <= 'f') || ('A' <= c && c <= 'F')
}

/// A character of the canonical (lowercase) identifier form.
pub open spec fn is_canon_hex_digit(c: char) -> bool {
    ('0' <= c && c <= '9') || ('a' <= c && c <= 'f')
}

/// Lowercasing of the six uppercase digits; every other character is kept.
pub open spec fn hex_lower(c: char) -> char {
    match c {
        'A' => 'a',
        'B' => 'b',
        'C' => 'c',
        'D' => 'd',
        'E' => 'e',
        'F' => 'f',
        _ => c,
    }
}

/// The canonical digit for a value below sixteen.
pub open spec fn hex_char_of(v: nat) -> char {
    if v == 0 { '0' }
    else if v == 1 { '1' }
    else if v == 2 { '2' }
    else if v == 3 { '3' }
    else if v == 4 { '4' }
    else if v == 5 { '5' }
    else if v == 6 { '6' }
    else if v == 7 { '7' }
    else if v == 8 { '8' }
    else if v == 9 { '9' }
    else if v == 10 { 'a' }
    else if v == 11 { 'b' }
    else if v == 12 { 'c' }
    else if v == 13 { 'd' }
    else if v == 14 { 'e' }
    else { 'f' }
}

/// An identifier string the parser accepts: exactly 24 hexadecimal digits.
pub open spec fn is_valid_id(s: Seq<char>) -> bool {
    s.len() == 24 && (forall|i: int| 0 <= i < 24 ==> is_hex_digit(#[trigger] s[i]))
}

/// The canonical form of an accepted identifier string.
pub open spec fn canon_id(s: Seq<char>) -> Seq<char> {
    s.map_values(|c: char| hex_lower(c))
}

/// A string already in canonical form: 24 lowercase hexadecimal digits.
pub open spec fn is_canon_id(s: Seq<char>) -> bool {
    s.len() == 24 && (forall|i: int| 0 <= i < 24 ==> is_canon_hex_digit(#[trigger] s[i]))
}

/// The hexadecimal digit at position `i` (most significant first) of `n`.
pub open spec fn nibble(n: u64, i: int) -> nat {
    ((n >> (((15 - i) * 4) as u64)) & 0xf) as nat
}

/// The identifier the store assigns for counter value `n`: eight zero
/// digits followed by the sixteen digits of `n`, most significant first.
pub open spec fn id_of_key(n: u64) -> Seq<char> {
    Seq::new(24, |i: int| if i < 8 { '0' } else { hex_char_of(nibble(n, i - 8)) })
}

/// Every digit position of `n` holds a value below sixteen.
pub proof fn lemma_nibble_bound(n: u64, i: int)
    requires
        0 <= i < 16,
    ensures
        nibble(n, i) < 16,
{
    let sh = ((15 - i) * 4) as u64;
    assert((n >> sh) & 0xf < 16) by (bit_vector);
}

/// The canonical digit map is injective below sixteen.
pub proof fn lemma_hex_char_of_injective(x: nat, y: nat)
    requires
        x < 16,
        y < 16,
        hex_char_of(x) == hex_char_of(y),
    ensures
        x == y,
{
}

/// Distinct counter values yield distinct identifiers: the store never
/// assigns the same identifier twice.
pub proof fn lemma_id_of_key_injective(a: u64, b: u64)
    requires
        id_of_key(a) == id_of_key(b),
    ensures
        a == b,
{
    assert forall|i: int| 0 <= i < 16 implies nibble(a, i) == nibble(b, i) by {
        assert(id_of_key(a)[8 + i] == id_of_key(b)[8 + i]);
        assert(id_of_key(a)[8 + i] == hex_char_of(nibble(a, i)));
        assert(id_of_key(b)[8 + i] == hex_char_of(nibble(b, i)));
        lemma_nibble_bound(a, i);
        lemma_nibble_bound(b, i);
        lemma_hex_char_of_injective(nibble(a, i), nibble(b, i));
    }
    assert(nibble(a, 0) == nibble(b, 0));
    assert(nibble(a, 1) == nibble(b, 1));
    assert(nibble(a, 2) == nibble(b, 2));
    assert(nibble(a, 3) == nibble(b, 3));
    assert(nibble(a, 4) == nibble(b, 4));
    assert(nibble(a, 5) == nibble(b, 5));
    assert(nibble(a, 6) == nibble(b, 6));
    assert(nibble(a, 7) == nibble(b, 7));
    assert(nibble(a, 8) == nibble(b, 8));
    assert(nibble(a, 9) == nibble(b, 9));
    assert(nibble(a, 10) == nibble(b, 10));
    assert(nibble(a, 11) == nibble(b, 11));
    assert(nibble(a, 12) == nibble(b, 12));
    assert(nibble(a, 13) == nibble(b, 13));
    assert(nibble(a, 14) == nibble(b, 14));
    assert(nibble(a, 15) == nibble(b, 15));
    assert(a == b) by (bit_vector)
        requires
            (a >> 60u64) & 0xf == (b >> 60u64) & 0xf,
            (a >> 56u64) & 0xf == (b >> 56u64) & 0xf,
            (a >> 52u64) & 0xf == (b >> 52u64) & 0xf,
            (a >> 48u64) & 0xf == (b >> 48u64) & 0xf,
            (a >> 44u64) & 0xf == (b >> 44u64) & 0xf,
            (a >> 40u64) & 0xf == (b >> 40u64) & 0xf,
            (a >> 36u64) & 0xf == (b >> 36u64) & 0xf,
            (a >> 32u64) & 0xf == (b >> 32u64) & 0xf,
            (a >> 28u64) & 0xf == (b >> 28u64) & 0xf,
            (a >> 24u64) & 0xf == (b >> 24u64) & 0xf,
            (a >> 20u64) & 0xf == (b >> 20u64) & 0xf,
            (a >> 16u64) & 0xf == (b >> 16u64) & 0xf,
            (a >> 12u64) & 0xf == (b >> 12u64) & 0xf,
            (a >> 8u64) & 0xf == (b >> 8u64) & 0xf,
            (a >> 4u64) & 0xf == (b >> 4u64) & 0xf,
            (a >> 0u64) & 0xf == (b >> 0u64) & 0xf,
    ;
}

/// Assigned identifiers are already canonical.
pub proof fn lemma_id_of_key_canon(n: u64)
    ensures
        is_canon_id(id_of_key(n)),
{
    assert forall|i: int| 0 <= i < 24 implies is_canon_hex_digit(#[trigger] id_of_key(n)[i]) by {
        if i >= 8 {
            lemma_nibble_bound(n, i - 8);
        }
    }
}

/// Canonicalizing an accepted identifier string yields a canonical one.
pub proof fn lemma_canon_of_valid(s: Seq<char>)
    requires
        is_valid_id(s),
    ensures
        is_canon_id(canon_id(s)),
{
    assert forall|i: int| 0 <= i < 24 implies is_canon_hex_digit(#[trigger] canon_id(s)[i]) by {
        assert(is_hex_digit(s[i]));
        assert(canon_id(s)[i] == hex_lower(s[i]));
    }
}

/// A canonical identifier is its own canonical form.
pub proof fn lemma_canon_idempotent(s: Seq<char>)
    requires
        is_canon_id(s),
    ensures
        canon_id(s) == s,
{
    assert forall|i: int| 0 <= i < 24 implies canon_id(s)[i] == s[i] by {
        assert(is_canon_hex_digit(s[i]));
    }
    assert(canon_id(s) =~= s);
}

/// The value of a digit character, if it is one: its numeric value,
/// which maps back to the lowercase form of the character.
fn hex_val(c: char) -> (r: Option<u8>)
    ensures
        match r {
            Some(v) => is_hex_digit(c) && v < 16 && hex_char_of(v as nat) == hex_lower(c),
            None => !is_hex_digit(c),
        },
{
    if '0' <= c && c <= '9' {
        Some(((c as u32) - 48) as u8)
    } else if 'a' <= c && c <= 'f' {
        Some(((c as u32) - 87) as u8)
    } else if 'A' <= c && c <= 'F' {
        Some(((c as u32) - 55) as u8)
    } else {
        None
    }
}

/// Appends the canonical digit of a value below sixteen.
fn push_hex_char(s: &mut String, v: u8)
    requires
        v < 16,
    ensures
        final(s)@ == old(s)@.push(hex_char_of(v as nat)),
{
    match v {
        0 => {
            proof { reveal_strlit("0"); }
            s.append("0");
            proof { assert(s@ =~= old(s)@.push(hex_char_of(v as nat))); }
        },
        1 => {
            proof { reveal_strlit("1"); }
            s.append("1");
            proof { assert(s@ =~= old(s)@.push(hex_char_of(v as nat))); }
        },
        2 => {
            proof { reveal_strlit("2"); }
            s.append("2");
            proof { assert(s@ =~= old(s)@.push(hex_char_of(v as nat))); }
        },
        3 => {
            proof { reveal_strlit("3"); }
            s.append("3");
            proof { assert(s@ =~= old(s)@.push(hex_char_of(v as nat))); }
        },
        4 => {
            proof { reveal_strlit("4"); }
            s.append("4");
            proof { assert(s@ =~= old(s)@.push(hex_char_of(v as nat))); }
        },
        5 => {
            proof { reveal_strlit("5"); }
            s.append("5");
            proof { assert(s@ =~= old(s)@.push(hex_char_of(v as nat))); }
        },
        6 => {
            proof { reveal_strlit("6"); }
            s.append("6");
            proof { assert(s@ =~= old(s)@.push(hex_char_of(v as nat))); }
        },
        7 => {
            proof { reveal_strlit("7"); }
            s.append("7");
            proof { assert(s@ =~= old(s)@.push(hex_char_of(v as nat))); }
        },
        8 => {
            proof { reveal_strlit("8"); }
            s.append("8");
            proof { assert(s@ =~= old(s)@.push(hex_char_of(v as nat))); }
        },
        9 => {
            proof { reveal_strlit("9"); }
            s.append("9");
            proof { assert(s@ =~= old(s)@.push(hex_char_of(v as nat))); }
        },
        10 => {
            proof { reveal_strlit("a"); }
            s.append("a");
            proof { assert(s@ =~= old(s)@.push(hex_char_of(v as nat))); }
        },
        11 => {
            proof { reveal_strlit("b"); }
            s.append("b");
            proof { assert(s@ =~= old(s)@.push(hex_char_of(v as nat))); }
        },
        12 => {
            proof { reveal_strlit("c"); }
            s.append("c");
            proof { assert(s@ =~= old(s)@.push(hex_char_of(v as nat))); }
        },
        13 => {
            proof { reveal_strlit("d"); }
            s.append("d");
            proof { assert(s@ =~= old(s)@.push(hex_char_of(v as nat))); }
        },
        14 => {
            proof { reveal_strlit("e"); }
            s.append("e");
            proof { assert(s@ =~= old(s)@.push(hex_char_of(v as nat))); }
        },
        _ => {
            proof { reveal_strlit("f"); }
            s.append("f");
            proof { assert(s@ =~= old(s)@.push(hex_char_of(v as nat))); }
        },
    }
}

/// Parses an identifier string: accepted exactly when it is 24
/// hexadecimal digits, in which case its canonical lowercase form comes
/// back; every other input is rejected as `InvalidId`.
pub fn parse_id(s: &str) -> (r: Result<String, crate::errors::RepoError>)
    ensures
        is_valid_id(s@) ==> (r matches Ok(c) && c@ == canon_id(s@) && is_canon_id(c@)),
        !is_valid_id(s@) ==> r == Err::<String, crate::errors::RepoError>(
            crate::errors::RepoError::InvalidId,
        ),
{
    proof {
        if is_valid_id(s@) {
            lemma_canon_of_valid(s@);
        }
    }
    let len = s.unicode_len();
    if len != 24 {
        return Err(crate::errors::RepoError::InvalidId);
    }
    let mut out = String::new();
    let mut i: usize = 0;
    while i < 24
        invariant
            s@.len() == 24,
            0 <= i <= 24,
            out@ == canon_id(s@).subrange(0, i as int),
            forall|k: int| 0 <= k < i ==> is_hex_digit(#[trigger] s@[k]),
        decreases 24 - i,
    {
        let c = s.get_char(i);
        match hex_val(c) {
            Some(v) => {
                push_hex_char(&mut out, v);
                proof {
                    assert(canon_id(s@)[i as int] == hex_lower(s@[i as int]));
                    assert(out@ =~= canon_id(s@).subrange(0, i as int + 1));
                }
            },
            None => {
                proof {
                    assert(!is_hex_digit(s@[i as int]));
                }
                return Err(crate::errors::RepoError::InvalidId);
            },
        }
        i += 1;
    }
    proof {
        assert(out@ =~= canon_id(s@));
    }
    Ok(out)
}

/// The canonical string form of the identifier assigned for counter
/// value `n`.
pub fn key_to_id(n: u64) -> (s: String)
    ensures
        s@ == id_of_key(n),
{
    let mut out = String::new();
    out.append("00000000");
    proof {
        reveal_strlit("00000000");
        assert(out@ =~= id_of_key(n).subrange(0, 8));
    }
    let mut i: usize = 0;
    while i < 16
        invariant
            0 <= i <= 16,
            out@ == id_of_key(n).subrange(0, 8 + i as int),
        decreases 16 - i,
    {
        let sh: u64 = 60 - 4 * (i as u64);
        let nib: u64 = (n >> sh) & 0xf;
        proof {
            assert((n >> sh) & 0xf < 16) by (bit_vector);
        }
        let v: u8 = nib as u8;
        push_hex_char(&mut out, v);
        proof {
            assert(v as nat == nibble(n, i as int));
            assert(out@ =~= id_of_key(n).subrange(0, 8 + i as int + 1));
        }
        i += 1;
    }
    proof {
        assert(out@ =~= id_of_key(n));
    }
    out
}

} // verus!
