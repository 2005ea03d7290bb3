//! Session hashes for the Mojang handshake.

use vstd::prelude::*;

use crate::text::push_char;

verus! {

/// The identity shown as the author of a message.
#[derive(Debug)]
pub struct UserInfo {
    pub name: String,
    pub uuid: u128,
}

/// The high nibble of a byte.
pub open spec fn high_nibble(b: u8) -> u8 {
    b / 16
}

/// The low nibble of a byte.
pub open spec fn low_nibble(b: u8) -> u8 {
    b % 16
}

/// The nibbles of `bytes`, most significant first.
pub open spec fn nibbles(bytes: Seq<u8>) -> Seq<u8>
    decreases bytes.len(),
{
    if bytes.len() == 0 {
        Seq::empty()
    } else {
        let last = bytes.last();
        nibbles(bytes.drop_last()).push(high_nibble(last)).push(low_nibble(last))
    }
}

/// `digits` without its leading zeros.
pub open spec fn strip_zeros(digits: Seq<u8>) -> Seq<u8>
    decreases digits.len(),
{
    if digits.len() == 0 {
        digits
    } else if digits[0] == 0 {
        strip_zeros(digits.drop_first())
    } else {
        digits
    }
}

/// Lowercase hex digit for a value below 16.
pub open spec fn hex_digit(d: u8) -> char {
    if d < 10 {
        ((48 + d) as u8) as char
    } else {
        ((87 + d) as u8) as char
    }
}

/// Lowercase hex rendering of `bytes` read as one big-endian number:
/// leading zero nibbles are left out, and a zero value renders as `"0"`.
pub open spec fn sha1_hex(bytes: Seq<u8>) -> Seq<char> {
    let digits = strip_zeros(nibbles(bytes));
    if digits.len() == 0 {
        seq!['0']
    } else {
        digits.map_values(|d: u8| hex_digit(d))
    }
}

proof fn lemma_strip_push(digits: Seq<u8>, d: u8)
    ensures
        strip_zeros(digits.push(d)) == (if strip_zeros(digits).len() == 0 {
            if d == 0 {
                Seq::<u8>::empty()
            } else {
                seq![d]
            }
        } else {
            strip_zeros(digits).push(d)
        }),
    decreases digits.len(),
{
    if digits.len() == 0 {
        assert(seq![d].drop_first() =~= Seq::<u8>::empty());
        assert(digits.push(d) =~= seq![d]);
        assert(strip_zeros(seq![d].drop_first()) == Seq::<u8>::empty());
    } else if digits[0] == 0 {
        assert(digits.push(d)[0] == 0);
        assert(digits.push(d).drop_first() =~= digits.drop_first().push(d));
        lemma_strip_push(digits.drop_first(), d);
    } else {
        assert(digits.push(d)[0] == digits[0]);
    }
}

proof fn lemma_nibbles_small(bytes: Seq<u8>)
    ensures
        nibbles(bytes).len() == 2 * bytes.len(),
        forall|k: int| 0 <= k < nibbles(bytes).len() ==> nibbles(bytes)[k] < 16,
        (forall|k: int| 0 <= k < bytes.len() ==> bytes[k] == 0) ==> forall|k: int|
            0 <= k < nibbles(bytes).len() ==> nibbles(bytes)[k] == 0,
        (exists|k: int| 0 <= k < bytes.len() && bytes[k] != 0) ==> exists|k: int|
            0 <= k < nibbles(bytes).len() && nibbles(bytes)[k] != 0,
    decreases bytes.len(),
{
    if bytes.len() > 0 {
        let prev = bytes.drop_last();
        lemma_nibbles_small(prev);
        let n = nibbles(bytes);
        let np = nibbles(prev);
        assert forall|k: int| 0 <= k < np.len() implies n[k] == np[k] by {}
        if exists|k: int| 0 <= k < bytes.len() && bytes[k] != 0 {
            let k = choose|k: int| 0 <= k < bytes.len() && bytes[k] != 0;
            if k < prev.len() {
                assert(prev[k] != 0);
                let j = choose|j: int| 0 <= j < np.len() && np[j] != 0;
                assert(n[j] != 0);
            } else {
                let b = bytes.last();
                if b / 16 == 0 {
                    assert(n[n.len() - 1] == b % 16);
                } else {
                    assert(n[n.len() - 2] == b / 16);
                }
            }
        }
        if forall|k: int| 0 <= k < bytes.len() ==> bytes[k] == 0 {
            assert forall|k: int| 0 <= k < prev.len() implies prev[k] == 0 by {
                assert(prev[k] == bytes[k]);
            }
            assert(bytes[bytes.len() - 1] == 0);
        }
    }
}

proof fn lemma_strip_suffix(digits: Seq<u8>)
    ensures
        exists|k: int| 0 <= k <= digits.len() && strip_zeros(digits) == digits.subrange(k, digits.len() as int)
            && forall|j: int| 0 <= j < k ==> digits[j] == 0,
        strip_zeros(digits).len() > 0 ==> strip_zeros(digits)[0] != 0,
        strip_zeros(digits).len() == 0 <==> forall|j: int| 0 <= j < digits.len() ==> digits[j] == 0,
    decreases digits.len(),
{
    if digits.len() == 0 {
        assert(strip_zeros(digits) == digits.subrange(0, 0));
    } else if digits[0] == 0 {
        let rest = digits.drop_first();
        lemma_strip_suffix(rest);
        let k = choose|k: int| 0 <= k <= rest.len() && strip_zeros(rest) == rest.subrange(k, rest.len() as int)
            && forall|j: int| 0 <= j < k ==> rest[j] == 0;
        assert(rest.subrange(k, rest.len() as int) =~= digits.subrange(k + 1, digits.len() as int));
        assert forall|j: int| 0 <= j < k + 1 implies digits[j] == 0 by {
            if j > 0 {
                assert(digits[j] == rest[j - 1]);
            }
        }
        if forall|j: int| 0 <= j < rest.len() ==> rest[j] == 0 {
            assert forall|j: int| 0 <= j < digits.len() implies digits[j] == 0 by {
                if j > 0 {
                    assert(digits[j] == rest[j - 1]);
                }
            }
        } else {
            let j = choose|j: int| 0 <= j < rest.len() && rest[j] != 0;
            assert(digits[j + 1] != 0);
        }
    } else {
        assert(strip_zeros(digits) == digits.subrange(0, digits.len() as int));
    }
}

/// A lowercase hex digit.
pub open spec fn is_lower_hex(c: char) -> bool {
    ('0' <= c <= '9') || ('a' <= c <= 'f')
}

/// The session-hash rendering depends on the bytes alone. It consists of
/// lowercase hex digits; it never starts with a zero digit unless it is
/// exactly `"0"`, which it is when every byte is zero.
pub proof fn lemma_sha1_hex_shape(bytes: Seq<u8>)
    ensures
        forall|k: int| 0 <= k < sha1_hex(bytes).len() ==> is_lower_hex(#[trigger] sha1_hex(bytes)[k]),
        sha1_hex(bytes).len() > 0,
        sha1_hex(bytes)[0] == '0' ==> sha1_hex(bytes) == seq!['0'],
        (forall|k: int| 0 <= k < bytes.len() ==> bytes[k] == 0) <==> sha1_hex(bytes) == seq!['0'],
{
    let n = nibbles(bytes);
    let d = strip_zeros(n);
    lemma_nibbles_small(bytes);
    lemma_strip_suffix(n);
    let k = choose|k: int| 0 <= k <= n.len() && d == n.subrange(k, n.len() as int)
        && forall|j: int| 0 <= j < k ==> n[j] == 0;
    assert forall|j: int| 0 <= j < d.len() implies d[j] < 16 by {
        assert(d[j] == n[j + k]);
    }
    if d.len() > 0 {
        let h = sha1_hex(bytes);
        assert forall|j: int| 0 <= j < h.len() implies is_lower_hex(#[trigger] h[j]) by {
            assert(h[j] == hex_digit(d[j]));
        }
        assert(h[0] == hex_digit(d[0]));
        assert(h.len() == d.len());
        if forall|j: int| 0 <= j < bytes.len() ==> bytes[j] == 0 {
            assert(false);
        }
        if h == seq!['0'] {
            assert(h[0] == '0');
        }
    } else {
        assert(seq!['0'][0] == '0');
        if !(forall|j: int| 0 <= j < bytes.len() ==> bytes[j] == 0) {
            let j = choose|j: int| 0 <= j < n.len() && n[j] != 0;
        }
    }
}

fn hex_digit_exec(d: u8) -> (c: char)
    requires
        d < 16,
    ensures
        c == hex_digit(d),
{
    if d < 10 {
        (48 + d) as char
    } else {
        (87 + d) as char
    }
}

/// Renders a 20-byte digest as lowercase hex with leading zero nibbles
/// skipped; an all-zero digest renders as `"0"`.
pub fn encode_sha1_bytes(bytes: &[u8; 20]) -> (r: String)
    ensures
        r@ == sha1_hex(bytes@),
{
    let mut buf = String::new();
    let mut skipped_zeros = false;
    let mut i: usize = 0;
    while i < 20
        invariant
            i <= 20,
            bytes@.len() == 20,
            skipped_zeros <==> strip_zeros(nibbles(bytes@.take(i as int))).len() > 0,
            buf@ == strip_zeros(nibbles(bytes@.take(i as int))).map_values(|d: u8| hex_digit(d)),
        decreases 20 - i,
    {
        let byte = bytes[i];
        let ghost prev = nibbles(bytes@.take(i as int));
        let left = byte >> 4;
        let right = byte & 15;
        assert(left == byte / 16 && right == byte % 16) by (bit_vector)
            requires
                left == byte >> 4,
                right == byte & 15,
        ;
        assert(bytes@.take(i + 1).drop_last() =~= bytes@.take(i as int));
        assert(nibbles(bytes@.take(i + 1)) == prev.push(left).push(right));
        proof {
            lemma_strip_push(prev, left);
            lemma_strip_push(prev.push(left), right);
        }
        if left != 0 {
            skipped_zeros = true;
        }
        if skipped_zeros {
            push_char(&mut buf, hex_digit_exec(left));
        }
        assert(buf@ =~= strip_zeros(prev.push(left)).map_values(|d: u8| hex_digit(d)));
        if right != 0 {
            skipped_zeros = true;
        }
        if skipped_zeros {
            push_char(&mut buf, hex_digit_exec(right));
        }
        assert(buf@ =~= strip_zeros(prev.push(left).push(right)).map_values(|d: u8| hex_digit(d)));
        i = i + 1;
    }
    assert(bytes@.take(20) =~= bytes@);
    if !skipped_zeros {
        push_char(&mut buf, '0');
        assert(buf@ =~= seq!['0']);
    }
    buf
}

} // verus!

verus! {

/// What `url::Url::parse` of `base`, followed by appending the query pairs
/// `(k1, v1)` and `(k2, v2)`, renders; `None` where `base` does not parse.
pub uninterp spec fn url_with_query(
    base: Seq<char>,
    k1: Seq<char>,
    v1: Seq<char>,
    k2: Seq<char>,
    v2: Seq<char>,
) -> Option<Seq<char>>;

/// Relies on `url::Url::parse`, `Url::query_pairs_mut` with
/// `append_pair` (which percent-encodes), and `Url`'s `to_string`.
#[verifier::external_body]
fn add_query(base: &str, k1: &str, v1: &str, k2: &str, v2: &str) -> (r: Option<String>)
    ensures
        r matches Some(s) ==> url_with_query(base@, k1@, v1@, k2@, v2@) == Some(s@),
        r is None <==> url_with_query(base@, k1@, v1@, k2@, v2@) is None,
{
    match url::Url::parse(base) {
        Ok(mut url) => {
            url.query_pairs_mut().append_pair(k1, v1).append_pair(k2, v2);
            Some(url.to_string())
        },
        Err(_) => None,
    }
}

/// The Mojang endpoint that tells whether a player joined a server.
pub open spec fn has_joined_endpoint() -> Seq<char> {
    "https://sessionserver.mojang.com/session/minecraft/hasJoined"@
}

/// The URL that asks Mojang whether `username` joined with `server_id`.
pub open spec fn mojang_has_joined_url(username: Seq<char>, server_id: Seq<char>) -> Option<
    Seq<char>,
> {
    url_with_query(has_joined_endpoint(), "username"@, username, "serverId"@, server_id)
}

/// Builds the URL of Mojang's `hasJoined` check for a player and a session
/// hash.
pub fn has_joined_url(username: &str, server_id: &str) -> (r: Option<String>)
    ensures
        r matches Some(s) ==> mojang_has_joined_url(username@, server_id@) == Some(s@),
        r is None <==> mojang_has_joined_url(username@, server_id@) is None,
{
    add_query(
        "https://sessionserver.mojang.com/session/minecraft/hasJoined",
        "username",
        username,
        "serverId",
        server_id,
    )
}

} // verus!
