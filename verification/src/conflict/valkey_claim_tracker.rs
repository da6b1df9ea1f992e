//! The claim tracker kept in a shared key-value store: its key layout, and
//! the decisions it takes on what the store answers.
//!
//! | Key | Value |
//! |-----|-------|
//! | `lock:{repo_id}:{file_path}:{qualified_name}` | the claim, serialised |
//! | `sess:{session_id}` | the set of lock keys the session holds |

use vstd::prelude::*;
use vstd::string::StringSliceAdditionalSpecFns;
use vstd::utf8::{valid_utf8, decode_utf8, encode_utf8, encode_scalar};
use uuid::Uuid;
use crate::conflict::claim_tracker::{AcquireOutcome, ClaimV, ConflictInfo, ReleasedLock, ReleasedV, SymbolClaim,
    SymbolLocked};
use crate::text::{has_prefix, push_text, starts_with, str_eq, texts_of};
use crate::workspace::conflict::utf8_decode;

verus! {

broadcast use vstd::utf8::decode_utf8_encode_utf8;

/// The lowercase hexadecimal digit of a value below 16.
pub open spec fn hex_digit(v: nat) -> char {
    if v < 10 {
        (48 + v) as char
    } else {
        (87 + v) as char
    }
}

/// The last `n` hexadecimal digits of `v`, most significant first.
pub open spec fn hex_digits(v: nat, n: nat) -> Seq<char>
    decreases n,
{
    if n == 0 {
        Seq::empty()
    } else {
        hex_digits(v / 16, (n - 1) as nat).push(hex_digit(v % 16))
    }
}

/// The text `Uuid` displays for an identifier with this value: its 32
/// lowercase hexadecimal digits, most significant first, with hyphens after
/// the 8th, 12th, 16th and 20th.
pub open spec fn uuid_text(id: u128) -> Seq<char> {
    let h = hex_digits(id as nat, 32);
    h.subrange(0, 8) + "-"@ + h.subrange(8, 12) + "-"@ + h.subrange(12, 16) + "-"@ + h.subrange(16, 20) + "-"@
        + h.subrange(20, 32)
}

/// `Uuid::from_u128(id).to_string()`: the identifier's hyphenated text,
/// 36 ASCII characters (lowercase hex digits and hyphens), which `Uuid`'s
/// parser reads back as the same identifier.
#[verifier::external_body]
fn uuid_string(id: u128) -> (r: String)
    ensures
        r@ == uuid_text(id),
        r@.len() == 36,
        forall|i: int| 0 <= i < r@.len() ==> (#[trigger] r@[i] as u32) < 128,
        uuid_parsed(r@) == Some(id),
{
    Uuid::from_u128(id).to_string()
}

/// The identifier `Uuid::from_str` reads from a text, if it reads one.
pub uninterp spec fn uuid_parsed(s: Seq<char>) -> Option<u128>;

/// `s.parse::<Uuid>()`: the identifier's value when `s` is a valid UUID text.
#[verifier::external_body]
fn parse_uuid(s: &str) -> (r: Option<u128>)
    ensures
        r == uuid_parsed(s@),
{
    match s.parse::<Uuid>() {
        Ok(u) => Some(u.as_u128()),
        Err(_) => None,
    }
}

/// The key of the lock on a symbol.
pub open spec fn lock_key_text(repo_id: u128, file_path: Seq<char>, qualified_name: Seq<char>) -> Seq<char> {
    "lock:"@ + uuid_text(repo_id) + ":"@ + file_path + ":"@ + qualified_name
}

/// The key of the set of lock keys a session holds.
pub open spec fn session_key_text(session_id: u128) -> Seq<char> {
    "sess:"@ + uuid_text(session_id)
}

/// The prefix every lock key of a repository starts with.
pub open spec fn repo_prefix_text(repo_id: u128) -> Seq<char> {
    "lock:"@ + uuid_text(repo_id) + ":"@
}

/// Whether a lock key reads back as repository `repo_id`, file `file_path`
/// and symbol `qualified_name`, reading cutting no character.
pub open spec fn key_reads_back(key: Seq<char>, repo_id: u128, file_path: Seq<char>, qualified_name: Seq<char>) -> bool {
    &&& !lock_key_cut(encode_utf8(key))
    &&& lock_key_parts(encode_utf8(key)) == Some((repo_id, file_path, qualified_name))
}

/// The key of the lock on a symbol; when the file path holds no `:`, the
/// key reads back as the repository, file and symbol it was made of.
pub fn lock_key(repo_id: u128, file_path: &str, qualified_name: &str) -> (r: String)
    ensures
        r@ == lock_key_text(repo_id, file_path@, qualified_name@),
        !file_path@.contains(':') ==> key_reads_back(r@, repo_id, file_path@, qualified_name@),
{
    let mut k = String::from_str("lock:");
    let id = uuid_string(repo_id);
    push_text(&mut k, id.as_str());
    push_text(&mut k, ":");
    push_text(&mut k, file_path);
    push_text(&mut k, ":");
    push_text(&mut k, qualified_name);
    proof {
        if !file_path@.contains(':') {
            lemma_lock_key_reads_back(id@, repo_id, file_path@, qualified_name@);
        }
    }
    k
}

proof fn lemma_encode_concat(a: Seq<char>, b: Seq<char>)
    ensures
        encode_utf8(a + b) == encode_utf8(a) + encode_utf8(b),
    decreases a.len(),
{
    if a.len() == 0 {
        assert(a + b =~= b);
        assert(encode_utf8(a) =~= Seq::<u8>::empty());
        assert(encode_utf8(a) + encode_utf8(b) =~= encode_utf8(b));
    } else {
        lemma_encode_concat(a.drop_first(), b);
        assert((a + b).drop_first() =~= a.drop_first() + b);
        assert((a + b)[0] == a[0]);
        assert(encode_utf8(a + b) =~= encode_utf8(a) + encode_utf8(b));
    }
}

/// The bytes of one character: the first is no continuation byte, an ASCII
/// character is its own single byte, and only `:` gives byte 58.
proof fn lemma_scalar_bytes(c: char)
    ensures
        encode_scalar(c as u32).len() >= 1,
        !continues(encode_scalar(c as u32)[0]),
        (c as u32) < 128 ==> encode_scalar(c as u32) == seq![(c as u32) as u8],
        c != ':' ==> forall|k: int| 0 <= k < encode_scalar(c as u32).len() ==> #[trigger] encode_scalar(c as u32)[k] != 58u8,
{
    let v = c as u32;
    assert(v <= 0x7F ==> ((v & 0x7F) as u8) as u32 == v) by (bit_vector);
    assert((0xC0u8 | ((v >> 6) & 0x1F) as u8) >= 0xC0) by (bit_vector);
    assert((0xE0u8 | ((v >> 12) & 0x0F) as u8) >= 0xC0) by (bit_vector);
    assert((0xF0u8 | ((v >> 18) & 0x7) as u8) >= 0xC0) by (bit_vector);
    assert((0x80u8 | (v & 0x3F) as u8) >= 0x80) by (bit_vector);
    assert((0x80u8 | ((v >> 6) & 0x3F) as u8) >= 0x80) by (bit_vector);
    assert((0x80u8 | ((v >> 12) & 0x3F) as u8) >= 0x80) by (bit_vector);
    assert(v <= 0x7F ==> (v as u8) as u32 == v) by (bit_vector);
    if v == 58 {
        assert(c == ':');
    }
}

proof fn lemma_encode_shape(s: Seq<char>)
    ensures
        s.len() > 0 ==> encode_utf8(s).len() > 0 && !continues(encode_utf8(s)[0]),
        !s.contains(':') ==> forall|k: int| 0 <= k < encode_utf8(s).len() ==> #[trigger] encode_utf8(s)[k] != 58u8,
        (forall|i: int| 0 <= i < s.len() ==> (#[trigger] s[i] as u32) < 128) ==> encode_utf8(s).len() == s.len(),
    decreases s.len(),
{
    if s.len() > 0 {
        lemma_scalar_bytes(s[0]);
        let rest = s.drop_first();
        lemma_encode_shape(rest);
        let e0 = encode_scalar(s[0] as u32);
        let er = encode_utf8(rest);
        assert(encode_utf8(s) == e0 + er);
        if !s.contains(':') {
            assert(s[0] != ':');
            assert(!rest.contains(':')) by {
                if rest.contains(':') {
                    let j = choose|j: int| 0 <= j < rest.len() && rest[j] == ':';
                    assert(s[j + 1] == ':');
                }
            }
            assert forall|k: int| 0 <= k < encode_utf8(s).len() implies #[trigger] encode_utf8(s)[k] != 58u8 by {
                if k < e0.len() {
                    assert(encode_utf8(s)[k] == e0[k]);
                } else {
                    assert(encode_utf8(s)[k] == er[k - e0.len()]);
                }
            }
        }
        if forall|i: int| 0 <= i < s.len() ==> (#[trigger] s[i] as u32) < 128 {
            assert((s[0] as u32) < 128);
            assert forall|i: int| 0 <= i < rest.len() implies (#[trigger] rest[i] as u32) < 128 by {
                assert(rest[i] == s[i + 1]);
            }
        }
    }
}

/// A lock key made of an identifier text (36 ASCII characters that read back
/// as `repo_id`), a file path with no `:` and a symbol reads back as them.
pub proof fn lemma_lock_key_reads_back(u: Seq<char>, repo_id: u128, f: Seq<char>, q: Seq<char>)
    requires
        u.len() == 36,
        forall|i: int| 0 <= i < u.len() ==> (#[trigger] u[i] as u32) < 128,
        uuid_parsed(u) == Some(repo_id),
        uuid_text(repo_id) == u,
        !f.contains(':'),
    ensures
        key_reads_back(lock_key_text(repo_id, f, q), repo_id, f, q),
{
    broadcast use vstd::utf8::encode_utf8_valid_utf8, vstd::utf8::encode_utf8_decode_utf8;
    reveal_strlit("lock:");
    reveal_strlit(":");
    let lock = "lock:"@;
    let colon = ":"@;
    let key = lock + u + colon + f + colon + q;
    assert(lock_key_text(repo_id, f, q) == key);
    lemma_encode_concat(lock + u + colon + f + colon, q);
    lemma_encode_concat(lock + u + colon + f, colon);
    lemma_encode_concat(lock + u + colon, f);
    lemma_encode_concat(lock + u, colon);
    lemma_encode_concat(lock, u);
    lemma_encode_shape(u);
    lemma_encode_shape(f);
    lemma_encode_shape(lock);
    lemma_encode_shape(colon);
    let el = encode_utf8(lock);
    let eu = encode_utf8(u);
    let ec = encode_utf8(colon);
    let ef = encode_utf8(f);
    let eq = encode_utf8(q);
    lemma_scalar_bytes(':');
    assert(ec == encode_scalar(':' as u32) + encode_utf8(colon.drop_first()));
    assert(colon.drop_first() =~= Seq::<char>::empty());
    assert(ec =~= seq![58u8]);
    assert(el =~= lock_prefix_bytes()) by {
        let s = lock;
        lemma_scalar_bytes(s[0]);
        lemma_scalar_bytes(s[1]);
        lemma_scalar_bytes(s[2]);
        lemma_scalar_bytes(s[3]);
        lemma_scalar_bytes(s[4]);
        assert(encode_utf8(s) == encode_scalar(s[0] as u32) + encode_utf8(s.drop_first()));
        assert(encode_utf8(s.drop_first()) == encode_scalar(s[1] as u32) + encode_utf8(s.drop_first().drop_first()));
        assert(encode_utf8(s.drop_first().drop_first()) == encode_scalar(s[2] as u32) + encode_utf8(s.drop_first().drop_first().drop_first()));
        assert(encode_utf8(s.drop_first().drop_first().drop_first())
            == encode_scalar(s[3] as u32) + encode_utf8(s.drop_first().drop_first().drop_first().drop_first()));
        assert(encode_utf8(s.drop_first().drop_first().drop_first().drop_first())
            == encode_scalar(s[4] as u32) + encode_utf8(s.drop_first().drop_first().drop_first().drop_first().drop_first()));
        assert(s.drop_first().drop_first().drop_first().drop_first().drop_first() =~= Seq::<char>::empty());
    }
    let kb = el + eu + ec + ef + ec + eq;
    assert(encode_utf8(key) == kb);
    assert(forall|i: int| 0 <= i < u.len() ==> (#[trigger] u[i] as u32) < 128);
    assert(eu.len() == 36);
    let rest = eu + ec + ef + ec + eq;
    assert(kb.take(5) =~= el);
    assert(kb.skip(5) =~= rest);
    assert(key_rest(kb) == Some(rest));
    assert(rest.take(36) =~= eu);
    assert(rest[36] == 58u8);
    assert(text_of(eu) == Some(u));
    let after = ef + ec + eq;
    assert(rest.skip(37) =~= after);
    if f.len() > 0 {
        assert(rest[37] == ef[0]);
    } else {
        assert(rest[37] == 58u8);
    }
    assert(!lock_key_cut(kb));
    assert(after =~= ef + seq![58u8] + eq);
    lemma_first_colon(after, ef.len() as int);
    assert(after.take(ef.len() as int) =~= ef);
    assert(after.skip(ef.len() as int + 1) =~= eq);
    assert(text_of(ef) == Some(f));
    assert(text_of(eq) == Some(q));
}

/// The key of the set of lock keys a session holds.
pub fn session_set_key(session_id: u128) -> (r: String)
    ensures
        r@ == session_key_text(session_id),
{
    let mut k = String::from_str("sess:");
    let id = uuid_string(session_id);
    push_text(&mut k, id.as_str());
    k
}

/// The prefix of a repository's lock keys.
pub fn repo_lock_prefix(repo_id: u128) -> (r: String)
    ensures
        r@ == repo_prefix_text(repo_id),
{
    let mut k = String::from_str("lock:");
    let id = uuid_string(repo_id);
    push_text(&mut k, id.as_str());
    push_text(&mut k, ":");
    k
}

/// The bytes of `lock:`.
pub open spec fn lock_prefix_bytes() -> Seq<u8> {
    seq![108u8, 111u8, 99u8, 107u8, 58u8]
}

/// A byte that continues a multi-byte UTF-8 character.
pub open spec fn continues(b: u8) -> bool {
    0x80 <= b && b < 0xC0
}

/// The text some bytes decode to, if they are UTF-8.
pub open spec fn text_of(b: Seq<u8>) -> Option<Seq<char>> {
    if valid_utf8(b) {
        Some(decode_utf8(b))
    } else {
        None
    }
}

/// The index of the first `:` byte.
pub open spec fn first_colon(b: Seq<u8>) -> Option<int>
    decreases b.len(),
{
    if b.len() == 0 {
        None
    } else if b.last() == 58u8 && first_colon(b.drop_last()) is None {
        Some(b.len() - 1)
    } else {
        first_colon(b.drop_last())
    }
}

/// The part of a lock key after `lock:`, when it starts so.
pub open spec fn key_rest(kb: Seq<u8>) -> Option<Seq<u8>> {
    if kb.len() >= 5 && kb.take(5) == lock_prefix_bytes() {
        Some(kb.skip(5))
    } else {
        None
    }
}

/// Reading a lock key cuts a character in two: after `lock:`, byte 36 of
/// the rest is inside a character, or the identifier reads and byte 37 is.
pub open spec fn lock_key_cut(kb: Seq<u8>) -> bool {
    match key_rest(kb) {
        Some(rest) => rest.len() >= 38 && (continues(rest[36]) || (text_of(rest.take(36)) matches Some(t)
            && uuid_parsed(t) is Some && continues(rest[37]))),
        None => false,
    }
}

/// The repository, file and symbol a lock key names: after `lock:`, a
/// 36-byte identifier, one separator byte, then the file up to the first
/// `:` and the symbol after it.
pub open spec fn lock_key_parts(kb: Seq<u8>) -> Option<(u128, Seq<char>, Seq<char>)> {
    match key_rest(kb) {
        Some(rest) => if rest.len() < 38 {
            None
        } else {
            match text_of(rest.take(36)) {
                Some(t) => match uuid_parsed(t) {
                    Some(id) => {
                        let after = rest.skip(37);
                        match first_colon(after) {
                            Some(c) => match (text_of(after.take(c)), text_of(after.skip(c + 1))) {
                                (Some(f), Some(q)) => Some((id, f, q)),
                                _ => None,
                            },
                            None => None,
                        }
                    },
                    None => None,
                },
                None => None,
            }
        },
        None => None,
    }
}

pub open spec fn parts_view(r: Option<(u128, String, String)>) -> Option<(u128, Seq<char>, Seq<char>)> {
    match r {
        Some((id, f, q)) => Some((id, f@, q@)),
        None => None,
    }
}

/// The text some bytes decode to.
fn text_from(b: &[u8]) -> (r: Option<String>)
    ensures
        match r {
            Some(s) => text_of(b@) == Some(s@),
            None => text_of(b@) is None,
        },
{
    match utf8_decode(b) {
        Ok(s) => Some(String::from_str(s)),
        Err(_) => None,
    }
}

/// Whether reading lock key `key` would cut a character in two: after
/// `lock:`, byte 36 continues a character, or the identifier reads and
/// byte 37 continues one.
pub fn lock_key_cuts(key: &str) -> (r: bool)
    ensures
        r == lock_key_cut(key.spec_bytes()),
{
    let kb = key.as_bytes();
    let ghost kv = kb@;
    if kb.len() < 5 || kb[0] != 108u8 || kb[1] != 111u8 || kb[2] != 99u8 || kb[3] != 107u8 || kb[4] != 58u8 {
        proof {
            if kv.len() >= 5 && kv.take(5) == lock_prefix_bytes() {
                assert(kv.take(5)[0] == kv[0] && kv.take(5)[1] == kv[1] && kv.take(5)[2] == kv[2]);
                assert(kv.take(5)[3] == kv[3] && kv.take(5)[4] == kv[4]);
            }
        }
        return false;
    }
    assert(kv.take(5) =~= lock_prefix_bytes());
    let rest = vstd::slice::slice_subrange(kb, 5, kb.len());
    assert(rest@ =~= kv.skip(5));
    if rest.len() < 38 {
        return false;
    }
    if 0x80u8 <= rest[36] && rest[36] < 0xC0u8 {
        return true;
    }
    let id_bytes = vstd::slice::slice_subrange(rest, 0, 36);
    assert(id_bytes@ =~= rest@.take(36));
    match text_from(id_bytes) {
        Some(t) => parse_uuid(t.as_str()).is_some() && 0x80u8 <= rest[37] && rest[37] < 0xC0u8,
        None => false,
    }
}

/// The repository, file and symbol of a lock key, or `None` (outer) where
/// reading it would cut a character in two.
pub fn read_lock_key(key: &str) -> (r: Option<Option<(u128, String, String)>>)
    ensures
        lock_key_cut(key.spec_bytes()) <==> r is None,
        r matches Some(p) ==> parts_view(p) == lock_key_parts(key.spec_bytes()),
{
    if lock_key_cuts(key) {
        None
    } else {
        Some(parse_lock_key(key))
    }
}

/// Reads a lock key back into its repository, file and symbol.
pub fn parse_lock_key(key: &str) -> (r: Option<(u128, String, String)>)
    requires
        !lock_key_cut(key.spec_bytes()),
    ensures
        parts_view(r) == lock_key_parts(key.spec_bytes()),
{
    let kb = key.as_bytes();
    let ghost kv = kb@;
    if kb.len() < 5 || kb[0] != 108u8 || kb[1] != 111u8 || kb[2] != 99u8 || kb[3] != 107u8 || kb[4] != 58u8 {
        proof {
            if kv.len() >= 5 && kv.take(5) == lock_prefix_bytes() {
                assert(kv.take(5)[0] == kv[0] && kv.take(5)[1] == kv[1] && kv.take(5)[2] == kv[2]);
                assert(kv.take(5)[3] == kv[3] && kv.take(5)[4] == kv[4]);
            }
        }
        return None;
    }
    assert(kv.take(5) =~= lock_prefix_bytes());
    let rest = vstd::slice::slice_subrange(kb, 5, kb.len());
    assert(rest@ =~= kv.skip(5));
    if rest.len() < 38 {
        return None;
    }
    let id_bytes = vstd::slice::slice_subrange(rest, 0, 36);
    assert(id_bytes@ =~= rest@.take(36));
    let id_text = match text_from(id_bytes) {
        Some(t) => t,
        None => {
            return None;
        },
    };
    let id = match parse_uuid(id_text.as_str()) {
        Some(i) => i,
        None => {
            return None;
        },
    };
    let after = vstd::slice::slice_subrange(rest, 37, rest.len());
    assert(after@ =~= rest@.skip(37));
    let mut c: usize = 0;
    while c < after.len() && after[c] != 58u8
        invariant
            c <= after@.len(),
            forall|j: int| 0 <= j < c ==> after@[j] != 58u8,
        decreases after@.len() - c,
    {
        c = c + 1;
    }
    proof {
        lemma_first_colon(after@, c as int);
    }
    if c == after.len() {
        return None;
    }
    let f_bytes = vstd::slice::slice_subrange(after, 0, c);
    assert(f_bytes@ =~= after@.take(c as int));
    let q_bytes = vstd::slice::slice_subrange(after, c + 1, after.len());
    assert(q_bytes@ =~= after@.skip(c + 1));
    let f = match text_from(f_bytes) {
        Some(s) => s,
        None => {
            return None;
        },
    };
    let q = match text_from(q_bytes) {
        Some(s) => s,
        None => {
            return None;
        },
    };
    Some((id, f, q))
}

/// The first `:` of `b` is at `c` (or there is none when `c` is its length).
proof fn lemma_first_colon(b: Seq<u8>, c: int)
    requires
        0 <= c <= b.len(),
        forall|j: int| 0 <= j < c ==> b[j] != 58u8,
        c < b.len() ==> b[c] == 58u8,
    ensures
        first_colon(b) == (if c < b.len() { Some(c) } else { None::<int> }),
    decreases b.len(),
{
    if b.len() > 0 {
        if c < b.len() - 1 {
            lemma_first_colon(b.drop_last(), c);
        } else if c == b.len() - 1 {
            lemma_no_colon(b.drop_last());
        } else {
            lemma_first_colon(b.drop_last(), c - 1);
            lemma_no_colon(b.drop_last());
        }
    }
}

proof fn lemma_no_colon(b: Seq<u8>)
    requires
        forall|j: int| 0 <= j < b.len() ==> b[j] != 58u8,
    ensures
        first_colon(b) is None,
    decreases b.len(),
{
    if b.len() > 0 {
        lemma_no_colon(b.drop_last());
    }
}

/// The conflicts a batch of lock reads gives: for each symbol (paired with
/// the claim read under its lock key, if any), a claim of another session.
pub open spec fn conflicts_of(names: Seq<String>, holders: Seq<Option<SymbolClaim>>, session_id: u128) -> Seq<
    (Seq<char>, ClaimV),
>
    decreases names.len(),
{
    if names.len() == 0 || holders.len() == 0 {
        Seq::empty()
    } else {
        let n = if names.len() < holders.len() { names.len() } else { holders.len() };
        let prev = conflicts_of(names.take(n - 1), holders.take(n - 1), session_id);
        match holders[n - 1] {
            Some(c) => if c.session_id != session_id {
                prev.push((names[n - 1]@, c@))
            } else {
                prev
            },
            None => prev,
        }
    }
}

pub open spec fn conflict_info_view(c: ConflictInfo) -> (Seq<char>, ClaimV) {
    (c.qualified_name@, (c.conflicting_session, c.conflicting_agent@, c.qualified_name@, c.kind, c.first_touched_at))
}

/// The conflicts of a batch of lock reads, in the order of the names.
pub fn conflicts_from_holders(names: &[String], holders: &Vec<Option<SymbolClaim>>, session_id: u128) -> (r: Vec<
    ConflictInfo,
>)
    ensures
        r@.map_values(|c: ConflictInfo| conflict_info_view(c)) == conflicts_of(names@, holders@, session_id).map_values(
            |p: (Seq<char>, ClaimV)| (p.0, (p.1.0, p.1.1, p.0, p.1.3, p.1.4)),
        ),
{
    let n = if names.len() < holders.len() { names.len() } else { holders.len() };
    let ghost f = |p: (Seq<char>, ClaimV)| (p.0, (p.1.0, p.1.1, p.0, p.1.3, p.1.4));
    let mut out: Vec<ConflictInfo> = Vec::new();
    let mut i: usize = 0;
    while i < n
        invariant
            n <= names@.len(),
            n <= holders@.len(),
            n == names@.len() || n == holders@.len(),
            i <= n,
            f == (|p: (Seq<char>, ClaimV)| (p.0, (p.1.0, p.1.1, p.0, p.1.3, p.1.4))),
            out@.map_values(|c: ConflictInfo| conflict_info_view(c)) == conflicts_of(
                names@.take(i as int),
                holders@.take(i as int),
                session_id,
            ).map_values(f),
        decreases n - i,
    {
        let ghost pn = names@.take(i + 1);
        let ghost ph = holders@.take(i + 1);
        assert(pn.take(i as int) =~= names@.take(i as int));
        assert(ph.take(i as int) =~= holders@.take(i as int));
        let ghost before = out@.map_values(|c: ConflictInfo| conflict_info_view(c));
        match &holders[i] {
            Some(c) => {
                if c.session_id != session_id {
                    let info = ConflictInfo {
                        qualified_name: names[i].clone(),
                        kind: c.kind,
                        conflicting_session: c.session_id,
                        conflicting_agent: c.agent_name.clone(),
                        first_touched_at: c.first_touched_at,
                    };
                    out.push(info);
                    assert(out@.map_values(|c: ConflictInfo| conflict_info_view(c)) =~= before.push(
                        conflict_info_view(info),
                    ));
                }
            },
            None => {},
        }
        i = i + 1;
    }
    proof {
        assert(names@.take(n as int).len() == n);
        if n == names@.len() {
            assert(names@.take(n as int) =~= names@);
        }
        if n == holders@.len() {
            assert(holders@.take(n as int) =~= holders@);
        }
        lemma_conflicts_prefix(names@, holders@, session_id, n as int);
    }
    out
}

/// Reading the names and holders up to the shorter length gives the same
/// conflicts as reading them all.
proof fn lemma_conflicts_prefix(names: Seq<String>, holders: Seq<Option<SymbolClaim>>, session_id: u128, n: int)
    requires
        n == (if names.len() < holders.len() { names.len() } else { holders.len() }),
    ensures
        conflicts_of(names.take(n), holders.take(n), session_id) == conflicts_of(names, holders, session_id),
{
    let a = names.take(n);
    let b = holders.take(n);
    if n > 0 {
        assert(a.take(n - 1) =~= names.take(n - 1));
        assert(b.take(n - 1) =~= holders.take(n - 1));
    }
}

/// What acquiring a lock answers, given the store's reply: `FRESH`,
/// `REACQUIRE`, or the holder's claim as it was read (its read error when
/// it could not be read).
pub open spec fn acquire_reply(
    reply: Seq<char>,
    holder: Result<ClaimV, Seq<char>>,
    claim: ClaimV,
    file_path: Seq<char>,
    now: i64,
) -> Result<AcquireOutcome, (Seq<char>, crate::domain::SymbolKind, u128, Seq<char>, i64, Seq<char>)> {
    if reply == "FRESH"@ {
        Ok(AcquireOutcome::Fresh)
    } else if reply == "REACQUIRE"@ {
        Ok(AcquireOutcome::ReAcquired)
    } else {
        match holder {
            Ok(h) => Err((claim.2, h.3, h.0, h.1, h.4, file_path)),
            Err(e) => Err((claim.2, claim.3, 0u128, "parse error: "@ + e, now, file_path)),
        }
    }
}

pub open spec fn acquire_result_view(r: Result<AcquireOutcome, SymbolLocked>) -> Result<
    AcquireOutcome,
    (Seq<char>, crate::domain::SymbolKind, u128, Seq<char>, i64, Seq<char>),
> {
    match r {
        Ok(o) => Ok(o),
        Err(l) => Err(l@),
    }
}

pub open spec fn holder_view(h: Result<SymbolClaim, String>) -> Result<ClaimV, Seq<char>> {
    match h {
        Ok(c) => Ok(c@),
        Err(e) => Err(e@),
    }
}

/// The answer to an acquire, from the store's reply; `holder` is the claim
/// read from a reply that is neither `FRESH` nor `REACQUIRE`, and `now`
/// stamps an unreadable one.
pub fn acquire_answer(reply: &str, holder: Result<SymbolClaim, String>, claim: &SymbolClaim, file_path: &str, now: i64)
    -> (r: Result<AcquireOutcome, SymbolLocked>)
    ensures
        acquire_result_view(r) == acquire_reply(reply@, holder_view(holder), claim@, file_path@, now),
{
    if str_eq(reply, "FRESH") {
        return Ok(AcquireOutcome::Fresh);
    }
    if str_eq(reply, "REACQUIRE") {
        return Ok(AcquireOutcome::ReAcquired);
    }
    match holder {
        Ok(h) => Err(
            SymbolLocked {
                qualified_name: claim.qualified_name.clone(),
                kind: h.kind,
                locked_by_session: h.session_id,
                locked_by_agent: h.agent_name,
                locked_since: h.first_touched_at,
                file_path: String::from_str(file_path),
            },
        ),
        Err(e) => {
            let mut agent = String::from_str("parse error: ");
            push_text(&mut agent, e.as_str());
            Err(
                SymbolLocked {
                    qualified_name: claim.qualified_name.clone(),
                    kind: claim.kind,
                    locked_by_session: 0,
                    locked_by_agent: agent,
                    locked_since: now,
                    file_path: String::from_str(file_path),
                },
            )
        },
    }
}

/// What releasing a session's locks does with the keys it held (each
/// paired with the claim read under it): keys whose claim belongs to the
/// session are deleted, and those whose key names a file are reported.
pub open spec fn release_of(keys: Seq<String>, holders: Seq<Option<SymbolClaim>>, session_id: u128) -> (
    Seq<ReleasedV>,
    Seq<Seq<char>>,
)
    decreases keys.len(),
{
    if keys.len() == 0 || holders.len() == 0 {
        (Seq::empty(), Seq::empty())
    } else {
        let n = if keys.len() < holders.len() { keys.len() } else { holders.len() };
        let (rel, del) = release_of(keys.take(n - 1), holders.take(n - 1), session_id);
        match holders[n - 1] {
            Some(c) => if c.session_id == session_id {
                let rel2 = match lock_key_parts(encode_utf8(keys[n - 1]@)) {
                    Some((_, f, _)) => rel.push((f, c.qualified_name@, c.kind, c.agent_name@)),
                    None => rel,
                };
                (rel2, del.push(keys[n - 1]@))
            } else {
                (rel, del)
            },
            None => (rel, del),
        }
    }
}

pub open spec fn released_view(v: Seq<ReleasedLock>) -> Seq<ReleasedV> {
    v.map_values(|r: ReleasedLock| r@)
}

/// The keys among `keys` that start with `p`, in order.
pub open spec fn with_prefix(keys: Seq<Seq<char>>, p: Seq<char>) -> Seq<Seq<char>>
    decreases keys.len(),
{
    if keys.len() == 0 {
        Seq::empty()
    } else if has_prefix(keys.last(), p) {
        with_prefix(keys.drop_last(), p).push(keys.last())
    } else {
        with_prefix(keys.drop_last(), p)
    }
}

/// The lock keys of one repository among a session's keys.
pub fn repo_lock_keys(repo_id: u128, keys: &Vec<String>) -> (r: Vec<String>)
    ensures
        texts_of(r@) == with_prefix(texts_of(keys@), repo_prefix_text(repo_id)),
{
    let prefix = repo_lock_prefix(repo_id);
    let mut out: Vec<String> = Vec::new();
    let mut i: usize = 0;
    while i < keys.len()
        invariant
            i <= keys@.len(),
            prefix@ == repo_prefix_text(repo_id),
            texts_of(out@) == with_prefix(texts_of(keys@).take(i as int), repo_prefix_text(repo_id)),
        decreases keys@.len() - i,
    {
        assert(texts_of(keys@).take(i + 1).drop_last() =~= texts_of(keys@).take(i as int));
        if starts_with(keys[i].as_str(), prefix.as_str()) {
            let ghost before = texts_of(out@);
            out.push(keys[i].clone());
            assert(texts_of(out@) =~= before.push(keys@[i as int]@));
        }
        i = i + 1;
    }
    assert(texts_of(keys@).take(keys@.len() as int) =~= texts_of(keys@));
    out
}

/// The keys none of which cuts a character in two when read.
pub fn keys_readable(keys: &Vec<String>) -> (r: bool)
    ensures
        r == forall|i: int| 0 <= i < keys@.len() ==> !lock_key_cut(encode_utf8(#[trigger] keys@[i]@)),
{
    let mut i: usize = 0;
    while i < keys.len()
        invariant
            i <= keys@.len(),
            forall|j: int| 0 <= j < i ==> !lock_key_cut(encode_utf8(#[trigger] keys@[j]@)),
        decreases keys@.len() - i,
    {
        if lock_key_cuts(keys[i].as_str()) {
            return false;
        }
        i = i + 1;
    }
    true
}

/// The release decision, or `None` where reading one of the keys would cut
/// a character in two.
pub fn release_decision_checked(keys: &Vec<String>, holders: &Vec<Option<SymbolClaim>>, session_id: u128) -> (r: Option<(
    Vec<ReleasedLock>,
    Vec<String>,
)>)
    ensures
        r is None <==> exists|i: int| 0 <= i < keys@.len() && lock_key_cut(encode_utf8(#[trigger] keys@[i]@)),
        r matches Some(p) ==> (released_view(p.0@), texts_of(p.1@)) == release_of(keys@, holders@, session_id),
{
    if keys_readable(keys) {
        Some(release_decision(keys, holders, session_id))
    } else {
        None
    }
}

/// What releasing a session's locks does with the keys it held and the
/// claims read under them: the released locks, and the keys to delete.
pub fn release_decision(keys: &Vec<String>, holders: &Vec<Option<SymbolClaim>>, session_id: u128) -> (r: (
    Vec<ReleasedLock>,
    Vec<String>,
))
    requires
        forall|i: int| 0 <= i < keys@.len() ==> !lock_key_cut(encode_utf8(#[trigger] keys@[i]@)),
    ensures
        (released_view(r.0@), texts_of(r.1@)) == release_of(keys@, holders@, session_id),
{
    let n = if keys.len() < holders.len() { keys.len() } else { holders.len() };
    let mut rel: Vec<ReleasedLock> = Vec::new();
    let mut del: Vec<String> = Vec::new();
    let mut i: usize = 0;
    while i < n
        invariant
            n <= keys@.len(),
            n <= holders@.len(),
            n == keys@.len() || n == holders@.len(),
            i <= n,
            forall|j: int| 0 <= j < keys@.len() ==> !lock_key_cut(encode_utf8(#[trigger] keys@[j]@)),
            (released_view(rel@), texts_of(del@)) == release_of(keys@.take(i as int), holders@.take(i as int), session_id),
        decreases n - i,
    {
        let ghost pk = keys@.take(i + 1);
        let ghost ph = holders@.take(i + 1);
        assert(pk.take(i as int) =~= keys@.take(i as int));
        assert(ph.take(i as int) =~= holders@.take(i as int));
        let ghost rv = released_view(rel@);
        let ghost dv = texts_of(del@);
        match &holders[i] {
            Some(c) => {
                if c.session_id == session_id {
                    let key = &keys[i];
                    assert(!lock_key_cut(encode_utf8(keys@[i as int]@)));
                    match parse_lock_key(key.as_str()) {
                        Some((_, file_path, _)) => {
                            let lock = ReleasedLock {
                                file_path,
                                qualified_name: c.qualified_name.clone(),
                                kind: c.kind,
                                agent_name: c.agent_name.clone(),
                            };
                            rel.push(lock);
                            assert(released_view(rel@) =~= rv.push(lock@));
                        },
                        None => {},
                    }
                    del.push(key.clone());
                    assert(texts_of(del@) =~= dv.push(keys@[i as int]@));
                }
            },
            None => {},
        }
        i = i + 1;
    }
    proof {
        if n == keys@.len() {
            assert(keys@.take(n as int) =~= keys@);
        }
        if n == holders@.len() {
            assert(holders@.take(n as int) =~= holders@);
        }
        lemma_release_prefix(keys@, holders@, session_id, n as int);
    }
    (rel, del)
}

/// Reading the keys and holders up to the shorter length releases the same
/// as reading them all.
proof fn lemma_release_prefix(keys: Seq<String>, holders: Seq<Option<SymbolClaim>>, session_id: u128, n: int)
    requires
        n == (if keys.len() < holders.len() { keys.len() } else { holders.len() }),
    ensures
        release_of(keys.take(n), holders.take(n), session_id) == release_of(keys, holders, session_id),
{
    let a = keys.take(n);
    let b = holders.take(n);
    if n > 0 {
        assert(a.take(n - 1) =~= keys.take(n - 1));
        assert(b.take(n - 1) =~= holders.take(n - 1));
    }
}

} // verus!
