//! Names derived from a request's unique key: its id and its file.
use vstd::prelude::*;
use vstd::string::*;
use vstd::utf8::encode_utf8;

verus! {

/// How many characters of the hash name a request file.
pub const FILE_NAME_HASH_LENGTH: usize = 15;

/// How many characters a request id has at most.
pub const REQUEST_ID_LENGTH: usize = 15;

/// The SHA-256 digest of a byte string.
pub uninterp spec fn sha256(bytes: Seq<u8>) -> Seq<u8>;

/// `sha2::Sha256::digest`: 32 bytes that are a function of the input.
#[verifier::external_body]
fn sha256_digest(bytes: &[u8]) -> (digest: Vec<u8>)
    ensures
        digest@ == sha256(bytes@),
        digest@.len() == 32,
{
    <sha2::Sha256 as sha2::Digest>::digest(bytes).to_vec()
}

/// The hexadecimal digits.
pub open spec fn hex_alphabet() -> Seq<char> {
    "0123456789abcdef"@
}

/// The base64 digits.
pub open spec fn base64_alphabet() -> Seq<char> {
    "ABCDEFGHIJKLMNOPQRSTUVWXYZabcdefghijklmnopqrstuvwxyz0123456789+/"@
}

/// The half-byte at position `i`, high half first.
pub open spec fn nibble(bytes: Seq<u8>, i: int) -> int {
    if i % 2 == 0 {
        bytes[i / 2] as int / 16
    } else {
        bytes[i / 2] as int % 16
    }
}

/// Lower-case hexadecimal text of a byte string.
pub open spec fn hex_text(bytes: Seq<u8>) -> Seq<char> {
    Seq::new(2 * bytes.len(), |i: int| hex_alphabet()[nibble(bytes, i)])
}

/// The byte at `i`, or zero beyond the end.
pub open spec fn byte_or_zero(bytes: Seq<u8>, i: int) -> int {
    if 0 <= i < bytes.len() {
        bytes[i] as int
    } else {
        0
    }
}

/// The group of six bits at position `i`, zero-padded at the end.
pub open spec fn sextet(bytes: Seq<u8>, i: int) -> int {
    let base = 3 * (i / 4);
    let b0 = byte_or_zero(bytes, base);
    let b1 = byte_or_zero(bytes, base + 1);
    let b2 = byte_or_zero(bytes, base + 2);
    if i % 4 == 0 {
        b0 / 4
    } else if i % 4 == 1 {
        (b0 % 4) * 16 + b1 / 16
    } else if i % 4 == 2 {
        (b1 % 16) * 4 + b2 / 64
    } else {
        b2 % 64
    }
}

/// Base64 text of a byte string, without padding.
pub open spec fn base64_text(bytes: Seq<u8>) -> Seq<char> {
    Seq::new((8 * bytes.len() + 5) / 6, |i: int| base64_alphabet()[sextet(bytes, i)])
}

/// The first `n` characters, or all if there are fewer.
pub open spec fn first_chars(text: Seq<char>, n: nat) -> Seq<char> {
    if text.len() <= n {
        text
    } else {
        text.take(n as int)
    }
}

/// A character that may stand in a request id.
pub open spec fn id_char(c: char) -> bool {
    c != '+' && c != '/'
}

/// The hash that names the file of a request.
pub open spec fn file_hash(unique_key: Seq<char>) -> Seq<char> {
    first_chars(hex_text(sha256(encode_utf8(unique_key))), FILE_NAME_HASH_LENGTH as nat)
}

/// The name of the file that holds the request with this unique key.
pub open spec fn file_name_of(unique_key: Seq<char>) -> Seq<char> {
    file_hash(unique_key) + ".json"@
}

/// The id of the request with this unique key.
pub open spec fn request_id_of(unique_key: Seq<char>) -> Seq<char> {
    first_chars(
        base64_text(sha256(encode_utf8(unique_key))).filter(|c: char| id_char(c)),
        REQUEST_ID_LENGTH as nat,
    )
}

/// The first `length` hexadecimal digits of the SHA-256 digest of `text`.
pub fn sha256_prefix(text: &str, length: usize) -> (prefix: String)
    ensures
        prefix@ == first_chars(hex_text(sha256(encode_utf8(text@))), length as nat),
{
    let digest = sha256_digest(text.as_bytes());
    let alphabet = "0123456789abcdef";
    proof {
        reveal_strlit("0123456789abcdef");
    }
    assert(alphabet.is_ascii());
    let count: usize = if length < 64 {
        length
    } else {
        64
    };
    let mut prefix = String::new();
    let mut i: usize = 0;
    while i < count
        invariant
            i <= count <= 64,
            digest@.len() == 32,
            alphabet@ == hex_alphabet(),
            alphabet@.len() == 16,
            alphabet.is_ascii(),
            prefix@ == hex_text(digest@).take(i as int),
        decreases count - i,
    {
        let byte = digest[i / 2];
        let digit: usize = if i % 2 == 0 {
            (byte / 16) as usize
        } else {
            (byte % 16) as usize
        };
        prefix.append(alphabet.substring_ascii(digit, digit + 1));
        assert(prefix@ =~= hex_text(digest@).take(i + 1));
        i += 1;
    }
    assert(hex_text(digest@).take(64) =~= hex_text(digest@));
    prefix
}

/// The id of the request with this unique key.
pub fn unique_key_to_request_id(unique_key: &str) -> (id: String)
    ensures
        id@ == request_id_of(unique_key@),
{
    let digest = sha256_digest(unique_key.as_bytes());
    let alphabet = "ABCDEFGHIJKLMNOPQRSTUVWXYZabcdefghijklmnopqrstuvwxyz0123456789+/";
    proof {
        reveal_strlit("ABCDEFGHIJKLMNOPQRSTUVWXYZabcdefghijklmnopqrstuvwxyz0123456789+/");
    }
    assert(alphabet.is_ascii());
    let ghost keep = |c: char| id_char(c);
    let ghost full = base64_text(digest@);
    let mut id = String::new();
    let mut length: usize = 0;
    let mut i: usize = 0;
    assert(full.take(0).filter(keep) =~= Seq::<char>::empty()) by {
        reveal(Seq::filter);
    }
    while i < 43 && length < REQUEST_ID_LENGTH
        invariant
            i <= 43,
            length <= REQUEST_ID_LENGTH,
            digest@.len() == 32,
            full == base64_text(digest@),
            full.len() == 43,
            alphabet@ == base64_alphabet(),
            alphabet@.len() == 64,
            alphabet.is_ascii(),
            alphabet@[62] == '+',
            alphabet@[63] == '/',
            forall|j: int| 0 <= j < 62 ==> id_char(#[trigger] alphabet@[j]),
            keep == (|c: char| id_char(c)),
            id@.len() == length,
            id@ == full.take(i as int).filter(keep),
        decreases 43 - i,
    {
        let group = 3 * (i / 4);
        let first = digest[group];
        let second: u8 = if group + 1 < 32 {
            digest[group + 1]
        } else {
            0
        };
        let third: u8 = if group + 2 < 32 {
            digest[group + 2]
        } else {
            0
        };
        let part = i % 4;
        let digit: usize = if part == 0 {
            (first / 4) as usize
        } else if part == 1 {
            ((first % 4) * 16 + second / 16) as usize
        } else if part == 2 {
            ((second % 16) * 4 + third / 64) as usize
        } else {
            (third % 64) as usize
        };
        assert(digit == sextet(digest@, i as int));
        assert(full.take(i + 1).drop_last() =~= full.take(i as int));
        assert(full.take(i + 1).last() == alphabet@[digit as int]);
        if digit < 62 {
            id.append(alphabet.substring_ascii(digit, digit + 1));
            length += 1;
            assert(id@ =~= full.take(i as int).filter(keep).push(alphabet@[digit as int]));
        }
        assert(id@ == full.take(i + 1).filter(keep)) by {
            reveal(Seq::filter);
        }
        i += 1;
    }
    assert(full.filter(keep) == full.take(i as int).filter(keep) + full.skip(i as int).filter(keep))
        by {
        assert(full =~= full.take(i as int) + full.skip(i as int));
        Seq::filter_distributes_over_add(full.take(i as int), full.skip(i as int), keep);
    }
    assert(i == 43 ==> full.skip(i as int).filter(keep).len() == 0) by {
        full.skip(i as int).lemma_filter_len(keep);
    }
    assert(id@ =~= first_chars(full.filter(keep), REQUEST_ID_LENGTH as nat));
    id
}

/// The name of the file that holds the request with this unique key.
pub fn request_file_name(unique_key: &str) -> (name: String)
    ensures
        name@ == file_name_of(unique_key@),
{
    let mut name = sha256_prefix(unique_key, FILE_NAME_HASH_LENGTH);
    name.append(".json");
    name
}

} // verus!
