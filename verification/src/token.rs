use vstd::prelude::*;

use crate::errors::StorageError;

verus! {

/// Position of the `k`-th hex digit inside the 36-character token text;
/// hyphens sit at positions 8, 13, 18 and 23.
pub open spec fn text_pos(k: int) -> int {
    if k < 8 {
        k
    } else if k < 12 {
        k + 1
    } else if k < 16 {
        k + 2
    } else if k < 20 {
        k + 3
    } else {
        k + 4
    }
}

/// A lowercase hex digit.
pub open spec fn is_hex_char(c: char) -> bool {
    (48 <= c as int && c as int <= 57) || (97 <= c as int && c as int <= 102)
}

/// The value of a lowercase hex digit.
pub open spec fn hex_val(c: char) -> int {
    if c as int <= 57 {
        c as int - 48
    } else {
        c as int - 87
    }
}

/// The canonical shape of a token rendered as text: 36 characters, hyphens
/// at positions 8, 13, 18 and 23, lowercase hex digits everywhere else.
pub open spec fn is_token_text(s: Seq<char>) -> bool {
    &&& s.len() == 36
    &&& s[8] == '-' && s[13] == '-' && s[18] == '-' && s[23] == '-'
    &&& forall|k: int| 0 <= k < 32 ==> is_hex_char(#[trigger] s[text_pos(k)])
}

/// The `k`-th nibble of a token value, highest first.
pub open spec fn nibble_of(t: u128, k: int) -> u128 {
    (t >> ((124 - 4 * k) as u128)) & 0xf
}

/// The hex digit of value `d`, as a one-character string.
fn hex_digit_str(d: u8) -> (r: &'static str)
    requires
        d < 16,
    ensures
        r@.len() == 1,
        is_hex_char(r@[0]),
        hex_val(r@[0]) == d as int,
{
    proof {
        reveal_strlit("0");
        reveal_strlit("1");
        reveal_strlit("2");
        reveal_strlit("3");
        reveal_strlit("4");
        reveal_strlit("5");
        reveal_strlit("6");
        reveal_strlit("7");
        reveal_strlit("8");
        reveal_strlit("9");
        reveal_strlit("a");
        reveal_strlit("b");
        reveal_strlit("c");
        reveal_strlit("d");
        reveal_strlit("e");
        reveal_strlit("f");
    }
    match d {
        0 => "0",
        1 => "1",
        2 => "2",
        3 => "3",
        4 => "4",
        5 => "5",
        6 => "6",
        7 => "7",
        8 => "8",
        9 => "9",
        10 => "a",
        11 => "b",
        12 => "c",
        13 => "d",
        14 => "e",
        _ => "f",
    }
}

/// Position of the `k`-th hex digit inside the token text.
fn text_pos_exec(k: usize) -> (r: usize)
    requires
        k < 32,
    ensures
        r == text_pos(k as int),
        r < 36,
{
    if k < 8 {
        k
    } else if k < 12 {
        k + 1
    } else if k < 16 {
        k + 2
    } else if k < 20 {
        k + 3
    } else {
        k + 4
    }
}

/// Render a token as its canonical text: 32 lowercase hex digits, highest
/// nibble first, hyphenated 8-4-4-4-12. Each digit of the result carries
/// the corresponding nibble of the token.
pub fn format_token(t: u128) -> (r: String)
    ensures
        is_token_text(r@),
        forall|k: int| 0 <= k < 32 ==> hex_val(r@[text_pos(k)]) == nibble_of(t, k),
{
    let mut s = String::new();
    let mut k: usize = 0;
    while k < 32
        invariant
            k <= 32,
            s@.len() == (if k <= 8 {
                k as int
            } else if k <= 12 {
                k + 1
            } else if k <= 16 {
                k + 2
            } else if k <= 20 {
                k + 3
            } else {
                k + 4
            }),
            8 < s@.len() ==> s@[8] == '-',
            13 < s@.len() ==> s@[13] == '-',
            18 < s@.len() ==> s@[18] == '-',
            23 < s@.len() ==> s@[23] == '-',
            forall|j: int|
                0 <= j < k ==> is_hex_char(#[trigger] s@[text_pos(j)]) && hex_val(s@[text_pos(j)])
                    == nibble_of(t, j),
        decreases 32 - k,
    {
        if k == 8 || k == 12 || k == 16 || k == 20 {
            proof {
                reveal_strlit("-");
            }
            let ghost s0 = s@;
            s.append("-");
            proof {
                assert(s@ =~= s0.push('-'));
            }
        }
        let sh: u128 = 124 - 4 * (k as u128);
        let nib: u128 = (t >> sh) & 0xf;
        proof {
            assert(nib < 16) by (bit_vector)
                requires
                    nib == (t >> sh) & 0xf,
            ;
        }
        let d: u8 = nib as u8;
        let piece = hex_digit_str(d);
        let ghost s0 = s@;
        s.append(piece);
        proof {
            assert(s@ =~= s0.push(piece@[0]));
            assert(s@[text_pos(k as int)] == piece@[0]);
            assert(nibble_of(t, k as int) == nib);
        }
        k = k + 1;
    }
    proof {
        assert(s@.len() == 36);
    }
    s
}

proof fn lemma_acc_new_nibble(t: u128, d: u128)
    requires
        d < 16,
    ensures
        ((t << 4) | d) & 0xf == d,
        (((t << 4) | d) >> 0u128) & 0xf == d,
{
    assert(((t << 4) | d) & 0xf == d && (((t << 4) | d) >> 0u128) & 0xf == d) by (bit_vector)
        requires
            d < 16,
    ;
}

proof fn lemma_acc_keeps_nibble(t: u128, d: u128, sh: u128)
    requires
        d < 16,
        sh <= 120,
        t >> 124 == 0,
    ensures
        (((t << 4) | d) >> (sh + 4)) & 0xf == (t >> sh) & 0xf,
{
    assert((((t << 4) | d) >> (sh + 4)) & 0xf == (t >> sh) & 0xf) by (bit_vector)
        requires
            d < 16 && sh <= 120 && t >> 124 == 0,
    ;
}

proof fn lemma_acc_stays_bounded(t: u128, d: u128, sh: u128)
    requires
        d < 16,
        sh <= 120,
        t >> sh == 0,
    ensures
        ((t << 4) | d) >> (sh + 4) == 0,
{
    assert(((t << 4) | d) >> (sh + 4) == 0) by (bit_vector)
        requires
            d < 16 && sh <= 120 && t >> sh == 0,
    ;
}

proof fn lemma_bound_widens(t: u128, a: u128, b: u128)
    requires
        t >> a == 0,
        a <= b,
        b <= 127,
    ensures
        t >> b == 0,
{
    assert(t >> b == 0) by (bit_vector)
        requires
            t >> a == 0 && a <= b && b <= 127,
    ;
}

/// Parse canonical token text back into the token value. Exactly the
/// strings of the canonical shape parse; anything else is the data
/// corruption error, since stored token text is always written in
/// canonical form. Each nibble of the result carries the corresponding
/// digit of the text.
pub fn parse_token(s: &str) -> (r: Result<u128, StorageError>)
    ensures
        r is Ok <==> is_token_text(s@),
        r is Err ==> r->Err_0 == StorageError::DataCorruption,
        r is Ok ==> forall|k: int| 0 <= k < 32 ==> nibble_of(r->Ok_0, k) == hex_val(
            s@[text_pos(k)],
        ),
{
    if s.unicode_len() != 36 {
        return Err(StorageError::DataCorruption);
    }
    if s.get_char(8) != '-' || s.get_char(13) != '-' || s.get_char(18) != '-' || s.get_char(23)
        != '-' {
        return Err(StorageError::DataCorruption);
    }
    let mut t: u128 = 0;
    let mut k: usize = 0;
    proof {
        assert(0u128 >> 0u128 == 0) by (bit_vector);
    }
    while k < 32
        invariant
            k <= 32,
            s@.len() == 36,
            s@[8] == '-' && s@[13] == '-' && s@[18] == '-' && s@[23] == '-',
            forall|j: int| 0 <= j < k ==> is_hex_char(#[trigger] s@[text_pos(j)]),
            k < 32 ==> t >> ((4 * k) as u128) == 0,
            forall|j: int|
                0 <= j < k ==> (t >> ((4 * (k - 1 - j)) as u128)) & 0xf == hex_val(
                    #[trigger] s@[text_pos(j)],
                ),
        decreases 32 - k,
    {
        let p = text_pos_exec(k);
        let c = s.get_char(p);
        let u = c as u32;
        let d: u8 = if 48 <= u && u <= 57 {
            (u - 48) as u8
        } else if 97 <= u && u <= 102 {
            (u - 87) as u8
        } else {
            proof {
                assert(!is_hex_char(s@[text_pos(k as int)]));
            }
            return Err(StorageError::DataCorruption);
        };
        let ghost t0 = t;
        proof {
            lemma_bound_widens(t0, (4 * k) as u128, 124);
            lemma_acc_new_nibble(t0, d as u128);
            assert forall|j: int| 0 <= j < k implies (((t0 << 4) | (d as u128)) >> ((4 * (k - j))
                as u128)) & 0xf == hex_val(#[trigger] s@[text_pos(j)]) by {
                lemma_acc_keeps_nibble(t0, d as u128, (4 * (k - 1 - j)) as u128);
            }
            if k + 1 < 32 {
                lemma_acc_stays_bounded(t0, d as u128, (4 * k) as u128);
            }
        }
        t = (t << 4) | (d as u128);
        k = k + 1;
    }
    proof {
        assert forall|j: int| 0 <= j < 32 implies nibble_of(t, j) == hex_val(
            #[trigger] s@[text_pos(j)],
        ) by {
            assert((t >> ((4 * (31 - j)) as u128)) & 0xf == hex_val(s@[text_pos(j)]));
            assert((124 - 4 * j) as u128 == (4 * (31 - j)) as u128);
        }
    }
    Ok(t)
}

/// Law: rendering a token and parsing the text back yields the same token.
/// The hypotheses are the contracts of [`format_token`] and
/// [`parse_token`] applied in sequence.
pub proof fn lemma_token_round_trip(t: u128, s: Seq<char>, r: u128)
    requires
        forall|k: int| 0 <= k < 32 ==> hex_val(#[trigger] s[text_pos(k)]) == nibble_of(t, k),
        forall|k: int| 0 <= k < 32 ==> nibble_of(r, k) == hex_val(#[trigger] s[text_pos(k)]),
    ensures
        r == t,
{
    assert forall|k: int| 0 <= k < 32 implies #[trigger] nibble_of(r, k) == nibble_of(t, k) by {
        assert(hex_val(s[text_pos(k)]) == nibble_of(t, k));
    }
    assert(nibble_of(r, 0) == nibble_of(t, 0));
    assert(nibble_of(r, 1) == nibble_of(t, 1));
    assert(nibble_of(r, 2) == nibble_of(t, 2));
    assert(nibble_of(r, 3) == nibble_of(t, 3));
    assert(nibble_of(r, 4) == nibble_of(t, 4));
    assert(nibble_of(r, 5) == nibble_of(t, 5));
    assert(nibble_of(r, 6) == nibble_of(t, 6));
    assert(nibble_of(r, 7) == nibble_of(t, 7));
    assert(nibble_of(r, 8) == nibble_of(t, 8));
    assert(nibble_of(r, 9) == nibble_of(t, 9));
    assert(nibble_of(r, 10) == nibble_of(t, 10));
    assert(nibble_of(r, 11) == nibble_of(t, 11));
    assert(nibble_of(r, 12) == nibble_of(t, 12));
    assert(nibble_of(r, 13) == nibble_of(t, 13));
    assert(nibble_of(r, 14) == nibble_of(t, 14));
    assert(nibble_of(r, 15) == nibble_of(t, 15));
    assert(nibble_of(r, 16) == nibble_of(t, 16));
    assert(nibble_of(r, 17) == nibble_of(t, 17));
    assert(nibble_of(r, 18) == nibble_of(t, 18));
    assert(nibble_of(r, 19) == nibble_of(t, 19));
    assert(nibble_of(r, 20) == nibble_of(t, 20));
    assert(nibble_of(r, 21) == nibble_of(t, 21));
    assert(nibble_of(r, 22) == nibble_of(t, 22));
    assert(nibble_of(r, 23) == nibble_of(t, 23));
    assert(nibble_of(r, 24) == nibble_of(t, 24));
    assert(nibble_of(r, 25) == nibble_of(t, 25));
    assert(nibble_of(r, 26) == nibble_of(t, 26));
    assert(nibble_of(r, 27) == nibble_of(t, 27));
    assert(nibble_of(r, 28) == nibble_of(t, 28));
    assert(nibble_of(r, 29) == nibble_of(t, 29));
    assert(nibble_of(r, 30) == nibble_of(t, 30));
    assert(nibble_of(r, 31) == nibble_of(t, 31));
    assert(r == t) by (bit_vector)
        requires
            (r >> 124u128) & 0xf == (t >> 124u128) & 0xf,
            (r >> 120u128) & 0xf == (t >> 120u128) & 0xf,
            (r >> 116u128) & 0xf == (t >> 116u128) & 0xf,
            (r >> 112u128) & 0xf == (t >> 112u128) & 0xf,
            (r >> 108u128) & 0xf == (t >> 108u128) & 0xf,
            (r >> 104u128) & 0xf == (t >> 104u128) & 0xf,
            (r >> 100u128) & 0xf == (t >> 100u128) & 0xf,
            (r >> 96u128) & 0xf == (t >> 96u128) & 0xf,
            (r >> 92u128) & 0xf == (t >> 92u128) & 0xf,
            (r >> 88u128) & 0xf == (t >> 88u128) & 0xf,
            (r >> 84u128) & 0xf == (t >> 84u128) & 0xf,
            (r >> 80u128) & 0xf == (t >> 80u128) & 0xf,
            (r >> 76u128) & 0xf == (t >> 76u128) & 0xf,
            (r >> 72u128) & 0xf == (t >> 72u128) & 0xf,
            (r >> 68u128) & 0xf == (t >> 68u128) & 0xf,
            (r >> 64u128) & 0xf == (t >> 64u128) & 0xf,
            (r >> 60u128) & 0xf == (t >> 60u128) & 0xf,
            (r >> 56u128) & 0xf == (t >> 56u128) & 0xf,
            (r >> 52u128) & 0xf == (t >> 52u128) & 0xf,
            (r >> 48u128) & 0xf == (t >> 48u128) & 0xf,
            (r >> 44u128) & 0xf == (t >> 44u128) & 0xf,
            (r >> 40u128) & 0xf == (t >> 40u128) & 0xf,
            (r >> 36u128) & 0xf == (t >> 36u128) & 0xf,
            (r >> 32u128) & 0xf == (t >> 32u128) & 0xf,
            (r >> 28u128) & 0xf == (t >> 28u128) & 0xf,
            (r >> 24u128) & 0xf == (t >> 24u128) & 0xf,
            (r >> 20u128) & 0xf == (t >> 20u128) & 0xf,
            (r >> 16u128) & 0xf == (t >> 16u128) & 0xf,
            (r >> 12u128) & 0xf == (t >> 12u128) & 0xf,
            (r >> 8u128) & 0xf == (t >> 8u128) & 0xf,
            (r >> 4u128) & 0xf == (t >> 4u128) & 0xf,
            (r >> 0u128) & 0xf == (t >> 0u128) & 0xf,
    ;
}

} // verus!
