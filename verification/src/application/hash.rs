//! Content hashing and the content-addressed names of encrypted files:
//! `{name}.{hash8}.enc`, where `hash8` is the first 8 hex chars of the
//! SHA-256 of the plaintext.
use vstd::prelude::*;

use crate::application::envrc::context2;
use crate::application::error::{io_failed, ApplicationError};
use crate::infrastructure::traits::FileSystem;
use crate::pathstr::{file_name, file_name_vec, with_file_name, with_file_name_vec};
use crate::text::{
    ascii_lower, ascii_lower_seq, chars_of, ends_with, ends_with_vec, is_hex_digit,
    is_hex_digit_exec, rfind_char, rfind_char_exec, slice, string_of,
};

verus! {

/// The SHA-256 digest of `data` (computed by the `sha2` crate).
pub uninterp spec fn sha256_digest(data: Seq<u8>) -> Seq<u8>;

/// `sha2::Sha256::digest`: the 32-byte SHA-256 digest of `data`. The
/// contract names the digest and states its length; the digest itself is
/// not stated.
#[verifier::external_body]
fn sha256(data: &[u8]) -> (r: Vec<u8>)
    ensures
        r@ == sha256_digest(data@),
        r@.len() == 32,
{
    <sha2::Sha256 as sha2::Digest>::digest(data).to_vec()
}

/// The lower-case hex digit of a nibble.
pub open spec fn hex_digit(n: int) -> char {
    if n < 10 {
        (('0' as u32) + n) as char
    } else {
        (('a' as u32) + n - 10) as char
    }
}

/// Lower-case hex encoding, high nibble first.
pub open spec fn hex_lower(data: Seq<u8>) -> Seq<char>
    decreases data.len(),
{
    if data.len() == 0 {
        seq![]
    } else {
        seq![hex_digit((data[0] / 16) as int), hex_digit((data[0] % 16) as int)] + hex_lower(data.drop_first())
    }
}

/// `hex::encode`: lower-case hex, two chars per byte, high nibble first.
#[verifier::external_body]
fn hex_encode(data: &[u8]) -> (r: String)
    ensures
        r@ == hex_lower(data@),
{
    hex::encode(data)
}

proof fn lemma_hex_len(data: Seq<u8>)
    ensures
        hex_lower(data).len() == 2 * data.len(),
    decreases data.len(),
{
    if data.len() > 0 {
        lemma_hex_len(data.drop_first());
    }
}

/// The content hash: the first 4 bytes of the SHA-256 digest, in hex.
pub open spec fn spec_content_hash(content: Seq<u8>) -> Seq<char> {
    hex_lower(sha256_digest(content).take(4))
}

/// Compute the 8-character hex hash of `content` (first 32 bits of SHA-256).
pub fn content_hash(content: &[u8]) -> (r: String)
    ensures
        r@ == spec_content_hash(content@),
        r@.len() == 8,
{
    let digest = sha256(content);
    let first = slice_bytes(&digest, 4);
    proof {
        lemma_hex_len(first@);
    }
    hex_encode(first.as_slice())
}

fn slice_bytes(v: &Vec<u8>, n: usize) -> (r: Vec<u8>)
    requires
        n <= v.len(),
    ensures
        r@ == v@.take(n as int),
{
    let mut r: Vec<u8> = Vec::new();
    let mut i: usize = 0;
    while i < n
        invariant
            i <= n <= v.len(),
            r@ == v@.take(i as int),
        decreases n - i,
    {
        r.push(v[i]);
        i = i + 1;
        assert(r@ =~= v@.take(i as int));
    }
    r
}

/// The `.enc` suffix.
pub open spec fn enc_suffix() -> Seq<char> {
    seq!['.', 'e', 'n', 'c']
}

/// All chars are hex digits.
pub open spec fn all_hex(s: Seq<char>) -> bool {
    forall|i: int| 0 <= i < s.len() ==> is_hex_digit(#[trigger] s[i])
}

/// `{name}.{hash8}.enc` → `(name, lower-case hash8)`; `None` for every
/// other file name.
pub open spec fn parsed_encrypted(p: Seq<char>) -> Option<(Seq<char>, Seq<char>)> {
    match file_name(p) {
        None => None,
        Some(f) => if !ends_with(f, enc_suffix()) {
            None
        } else {
            let w = f.take(f.len() - 4);
            match rfind_char(w, '.') {
                None => None,
                Some(i) => {
                    let h = w.skip(i + 1);
                    if h.len() == 8 && all_hex(h) && i > 0 {
                        Some((w.take(i), ascii_lower_seq(h)))
                    } else {
                        None
                    }
                },
            }
        },
    }
}

/// Parse an encrypted filename to extract the original name and hash.
///
/// Pattern: `{name}.{hash8}.enc` where hash8 is exactly 8 hex characters.
#[verifier::loop_isolation(false)]
pub fn parse_encrypted_filename(enc_path: &str) -> (r: Option<(String, String)>)
    ensures
        match r {
            Some((n, h)) => parsed_encrypted(enc_path@) == Some((n@, h@)),
            None => parsed_encrypted(enc_path@) is None,
        },
{
    let v = chars_of(enc_path);
    let f = match file_name_vec(&v) {
        Some(f) => f,
        None => return None,
    };
    let suf = vec!['.', 'e', 'n', 'c'];
    assert(suf@ =~= enc_suffix());
    if !ends_with_vec(&f, &suf) {
        return None;
    }
    let w = slice(&f, 0, f.len() - 4);
    assert(w@ =~= f@.take(f@.len() - 4));
    let i = match rfind_char_exec(&w, '.') {
        Some(i) => i,
        None => return None,
    };
    let h = slice(&w, i + 1, w.len());
    assert(h@ =~= w@.skip(i + 1));
    if h.len() != 8 || i == 0 {
        return None;
    }
    let mut k: usize = 0;
    let mut lower: Vec<char> = Vec::new();
    while k < h.len()
        invariant
            k <= h.len(),
            forall|j: int| 0 <= j < k ==> is_hex_digit(#[trigger] h@[j]),
            lower@ == ascii_lower_seq(h@.take(k as int)),
        decreases h.len() - k,
    {
        if !is_hex_digit_exec(h[k]) {
            assert(!all_hex(h@)) by {
                assert(!is_hex_digit(h@[k as int]));
            }
            return None;
        }
        let c = h[k];
        let lc = if 'A' <= c && c <= 'Z' {
            char_plus_32(c)
        } else {
            c
        };
        lower.push(lc);
        k = k + 1;
        assert(lower@ =~= ascii_lower_seq(h@.take(k as int)));
    }
    assert(h@.take(k as int) =~= h@);
    let name = slice(&w, 0, i);
    assert(name@ =~= w@.take(i as int));
    Some((string_of(&name), string_of(&lower)))
}

/// The lower-case letter for an upper-case ASCII letter.
fn char_plus_32(c: char) -> (r: char)
    requires
        'A' <= c && c <= 'Z',
    ensures
        r == ascii_lower(c),
{
    let u = (c as u32) + 32;
    assert(0x61 <= u <= 0x7a);
    let b = u as u8;
    b as char
}

/// The old encryption format `{name}.enc` (no hash component).
pub open spec fn old_enc_format(p: Seq<char>) -> bool {
    match file_name(p) {
        Some(f) => ends_with(f, enc_suffix()) && parsed_encrypted(p) is None,
        None => false,
    }
}

/// Check if a filename matches the old encryption format (without hash).
pub fn is_old_enc_format(enc_path: &str) -> (b: bool)
    ensures
        b == old_enc_format(enc_path@),
{
    let v = chars_of(enc_path);
    let f = match file_name_vec(&v) {
        Some(f) => f,
        None => return false,
    };
    let suf = vec!['.', 'e', 'n', 'c'];
    assert(suf@ =~= enc_suffix());
    if !ends_with_vec(&f, &suf) {
        return false;
    }
    parse_encrypted_filename(enc_path).is_none()
}

/// `{file name}.{hash}.enc` next to the plaintext.
pub open spec fn spec_encrypted_filename(p: Seq<char>, hash: Seq<char>) -> Seq<char> {
    with_file_name(p, file_name(p).unwrap() + seq!['.'] + hash + enc_suffix())
}

/// Generate the encrypted filename with embedded hash: `{name}.{hash}.enc`.
pub fn encrypted_filename(plaintext: &str, hash: &str) -> (r: String)
    requires
        file_name(plaintext@) is Some,
    ensures
        r@ == spec_encrypted_filename(plaintext@, hash@),
{
    let v = chars_of(plaintext);
    let name = file_name_vec(&v).unwrap();
    let mut n = name.clone();
    n.push('.');
    let hv = chars_of(hash);
    n.extend_from_slice(hv.as_slice());
    n.push('.');
    n.push('e');
    n.push('n');
    n.push('c');
    assert(n@ =~= name@ + seq!['.'] + hash@ + enc_suffix());
    string_of(&with_file_name_vec(&v, &n))
}

/// The 8-character hash of a file's content.
pub fn file_hash<F: FileSystem>(fs: &F, path: &str) -> (r: Result<String, ApplicationError>)
    ensures
        r matches Ok(h) ==> h@.len() == 8 && exists|c: Seq<u8>| h@ == #[trigger] spec_content_hash(c),
        r matches Err(e) ==> e is OperationFailed,
{
    match fs.read(path) {
        Ok(content) => {
            let h = content_hash(content.as_slice());
            assert(h@ == spec_content_hash(content@));
            Ok(h)
        },
        Err(e) => Err(io_failed(context2("read file for hashing: ", path), e)),
    }
}

/// The name given to an encrypted file parses back into the plaintext's
/// file name and the hash it carries (lower-cased), for a hash of eight hex
/// digits.
pub proof fn lemma_encrypted_filename_parses(p: Seq<char>, h: Seq<char>)
    requires
        file_name(p) is Some,
        h.len() == 8,
        all_hex(h),
    ensures
        parsed_encrypted(spec_encrypted_filename(p, h)) == Some((file_name(p).unwrap(), ascii_lower_seq(h))),
{
    let n = file_name(p).unwrap();
    let f = n + seq!['.'] + h + enc_suffix();
    crate::pathstr::lemma_last_component_no_slash(p);
    assert forall|j: int| 0 <= j < h.len() implies h[j] != '/' && h[j] != '.' by {
        assert(is_hex_digit(h[j]));
    }
    assert forall|j: int| 0 <= j < f.len() implies f[j] != '/' by {
        if j < n.len() {
            assert(f[j] == n[j]);
        } else if j > n.len() && j < n.len() + 1 + 8 {
            assert(f[j] == h[j - n.len() - 1]);
        }
    }
    assert(f.len() > 2);
    assert(f != seq!['.']);
    assert(f != seq!['.', '.']);
    match crate::pathstr::parent(p) {
        Some(d) => crate::pathstr::lemma_file_name_join(d, f),
        None => crate::pathstr::lemma_file_name_join(p, f),
    }
    assert(file_name(spec_encrypted_filename(p, h)) == Some(f));
    assert(f.subrange(f.len() - 4, f.len() as int) =~= enc_suffix());
    let w = f.take(f.len() - 4);
    assert(w =~= n.push('.') + h);
    crate::text::lemma_rfind_char_append(n.push('.'), h, '.');
    crate::text::lemma_rfind_char_push(n, '.');
    assert(w.skip(n.len() + 1int) =~= h);
    assert(w.take(n.len() as int) =~= n);
}

} // verus!
