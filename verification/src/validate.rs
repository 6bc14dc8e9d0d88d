//! Input validation for the record-keeping API, and the text helpers
//! it shares with the storage engine.

use vstd::prelude::*;

use crate::records::EvidenceMetadata;

verus! {

/// Character-wise string equality.
pub fn str_eq(a: &str, b: &str) -> (r: bool)
    ensures
        r == (a@ == b@),
{
    let alen = a.unicode_len();
    let blen = b.unicode_len();
    if alen != blen {
        return false;
    }
    let mut i: usize = 0;
    while i < alen
        invariant
            alen == a@.len(),
            a@.len() == b@.len(),
            0 <= i <= alen,
            forall|k: int| 0 <= k < i ==> a@[k] == b@[k],
        decreases alen - i,
    {
        if a.get_char(i) != b.get_char(i) {
            return false;
        }
        i += 1;
    }
    proof {
        assert(a@ =~= b@);
    }
    true
}

/// The number of occurrences of `c` in `s`.
pub open spec fn count_char(s: Seq<char>, c: char) -> int
    decreases s.len(),
{
    if s.len() == 0 {
        0
    } else {
        count_char(s.drop_last(), c) + if s.last() == c {
            1int
        } else {
            0int
        }
    }
}

/// The count is never negative.
proof fn lemma_count_char_nonneg(s: Seq<char>, c: char)
    ensures
        count_char(s, c) >= 0,
    decreases s.len(),
{
    if s.len() > 0 {
        lemma_count_char_nonneg(s.drop_last(), c);
    }
}

/// An occurrence makes the count positive.
proof fn lemma_char_count_pos(s: Seq<char>, c: char, i: int)
    requires
        0 <= i < s.len(),
        s[i] == c,
    ensures
        count_char(s, c) >= 1,
    decreases s.len(),
{
    if i < s.len() - 1 {
        lemma_char_count_pos(s.drop_last(), c, i);
    } else {
        lemma_count_char_nonneg(s.drop_last(), c);
    }
}

/// Two occurrences make the count at least two.
proof fn lemma_two_chars_count(s: Seq<char>, c: char, i: int, j: int)
    requires
        0 <= i < j < s.len(),
        s[i] == c,
        s[j] == c,
    ensures
        count_char(s, c) >= 2,
    decreases s.len(),
{
    if j == s.len() - 1 {
        lemma_char_count_pos(s.drop_last(), c, i);
    } else {
        lemma_two_chars_count(s.drop_last(), c, i, j);
    }
}

/// Whether `s` is an acceptable email address: a plausible length,
/// exactly one `@` that neither starts nor ends the address, and a
/// dot somewhere in the domain part.
pub open spec fn valid_email(s: Seq<char>) -> bool {
    &&& s.len() > 5
    &&& s.len() < 255
    &&& count_char(s, '@') == 1
    &&& exists|p: int|
        0 < p < s.len() - 1 && s[p] == '@' && exists|j: int| p < j < s.len() && s[j] == '.'
}

/// Checks an email address for plausible shape.
pub fn is_valid_email(email: &str) -> (r: bool)
    ensures
        r == valid_email(email@),
{
    let len = email.unicode_len();
    if len <= 5 || len >= 255 {
        return false;
    }
    // Count the occurrences of '@' and remember the first.
    let mut i: usize = 0;
    let mut at_count: u64 = 0;
    let mut at_pos: usize = 0;
    while i < len
        invariant
            len == email@.len(),
            5 < len < 255,
            0 <= i <= len,
            at_count <= i,
            at_count as int == count_char(email@.take(i as int), '@'),
            at_count > 0 ==> at_pos < i && email@[at_pos as int] == '@',
        decreases len - i,
    {
        proof {
            assert(email@.take(i + 1).drop_last() == email@.take(i as int));
            assert(email@.take(i + 1).last() == email@[i as int]);
        }
        if email.get_char(i) == '@' {
            if at_count == 0 {
                at_pos = i;
            }
            at_count += 1;
        }
        i += 1;
    }
    proof {
        assert(email@.take(len as int) == email@);
    }
    if at_count != 1 {
        return false;
    }
    if at_pos == 0 || at_pos == len - 1 {
        proof {
            assert forall|p: int|
                !(0 < p < email@.len() - 1 && email@[p] == '@' && exists|j: int|
                    p < j < email@.len() && email@[j] == '.') by {
                if 0 < p < email@.len() - 1 && email@[p] == '@' && p != at_pos {
                    if p < at_pos {
                        lemma_two_chars_count(email@, '@', p, at_pos as int);
                    } else {
                        lemma_two_chars_count(email@, '@', at_pos as int, p);
                    }
                }
            }
        }
        return false;
    }
    // Look for a dot in the domain part.
    let mut j: usize = at_pos + 1;
    let mut has_dot = false;
    while j < len
        invariant
            len == email@.len(),
            at_pos < j <= len,
            has_dot == exists|k: int| at_pos < k < j && email@[k] == '.',
        decreases len - j,
    {
        if email.get_char(j) == '.' {
            proof {
                assert(at_pos < j < email@.len() && email@[j as int] == '.');
            }
            has_dot = true;
        }
        j += 1;
    }
    proof {
        if has_dot {
            assert(0 < at_pos < email@.len() - 1 && email@[at_pos as int] == '@');
        } else {
            assert forall|p: int|
                !(0 < p < email@.len() - 1 && email@[p] == '@' && exists|k: int|
                    p < k < email@.len() && email@[k] == '.') by {
                if 0 < p < email@.len() - 1 && email@[p] == '@' {
                    if p != at_pos {
                        if p < at_pos {
                            lemma_two_chars_count(email@, '@', p, at_pos as int);
                        } else {
                            lemma_two_chars_count(email@, '@', at_pos as int, p);
                        }
                    }
                }
            }
        }
    }
    has_dot
}

/// The tolerance granted to evidence timestamps ahead of the clock.
pub const FUTURE_TOLERANCE: u64 = 60_000_000_000;

/// Validates evidence metadata against the clock reading `now`: the
/// content type must be present, the timestamp non-zero and not past
/// `now` by more than the tolerance.
pub fn validate_evidence_metadata(metadata: &EvidenceMetadata, now: u64) -> (r: Result<
    (),
    String,
>)
    ensures
        metadata.content_type@.len() == 0 ==> (r matches Err(e) && e@ == "Content type is required"@),
        metadata.content_type@.len() > 0 && metadata.timestamp == 0 ==> (r matches Err(e) && e@
            == "Timestamp is required"@),
        metadata.content_type@.len() > 0 && metadata.timestamp > 0 && metadata.timestamp > now
            + FUTURE_TOLERANCE ==> (r matches Err(e) && e@
            == "Timestamp cannot be in the future"@),
        metadata.content_type@.len() > 0 && metadata.timestamp > 0 && metadata.timestamp <= now
            + FUTURE_TOLERANCE ==> r is Ok,
{
    if metadata.content_type.unicode_len() == 0 {
        return Err("Content type is required".to_owned());
    }
    if metadata.timestamp == 0 {
        return Err("Timestamp is required".to_owned());
    }
    if metadata.timestamp > now && metadata.timestamp - now > FUTURE_TOLERANCE {
        return Err("Timestamp cannot be in the future".to_owned());
    }
    Ok(())
}

/// Validates an encrypted payload: it must not be empty and must be
/// at least as long as a nonce and an authentication tag together.
pub fn validate_encrypted_data(data: &[u8]) -> (r: Result<(), String>)
    ensures
        data@.len() == 0 ==> (r matches Err(e) && e@ == "Encrypted data cannot be empty"@),
        0 < data@.len() < 32 ==> (r matches Err(e) && e@
            == "Encrypted data appears to be too small"@),
        data@.len() >= 32 ==> r is Ok,
{
    if data.len() == 0 {
        return Err("Encrypted data cannot be empty".to_owned());
    }
    if data.len() < 32 {
        return Err("Encrypted data appears to be too small".to_owned());
    }
    Ok(())
}

/// Reconstructs a 32-byte master key from two of the three shares of
/// the two-way split: the key is the byte-wise exclusive-or of the
/// shares.
pub fn reconstruct_key_from_shares(share1: &[u8], share2: &[u8]) -> (r: Result<Vec<u8>, String>)
    ensures
        share1@.len() == 32 && share2@.len() == 32 ==> (r matches Ok(k) && k@.len() == 32
            && forall|i: int| 0 <= i < 32 ==> k@[i] == (share1@[i] ^ share2@[i])),
        !(share1@.len() == 32 && share2@.len() == 32) ==> (r matches Err(e) && e@
            == "Both shares must be exactly 32 bytes"@),
{
    if share1.len() != 32 || share2.len() != 32 {
        return Err("Both shares must be exactly 32 bytes".to_owned());
    }
    let mut key: Vec<u8> = Vec::new();
    let mut i: usize = 0;
    while i < 32
        invariant
            share1@.len() == 32,
            share2@.len() == 32,
            0 <= i <= 32,
            key@.len() == i,
            forall|k: int| 0 <= k < i ==> key@[k] == (share1@[k] ^ share2@[k]),
        decreases 32 - i,
    {
        key.push(share1[i] ^ share2[i]);
        i += 1;
    }
    Ok(key)
}

} // verus!
