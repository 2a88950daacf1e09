//! Token codec: issues and verifies signed access tokens.
//!
//! A token is an ASCII byte string of fixed shape: 66 lowercase hex
//! characters encoding a 33-byte payload (a purpose tag, then the subject
//! identifier, the issued-at second and the absolute expiry second, each
//! little-endian), a dot, and 16 hex characters encoding the payload's
//! signature. The signature is a keyed fold over the payload characters, so
//! any change to payload or signature segment is rejected. Verification is a
//! pure function of the token bytes, the key, and the current time.
use vstd::arithmetic::div_mod::*;
use vstd::prelude::*;

use crate::TokenError;

verus! {

/// Whole length of a token in bytes.
pub const TOKEN_LEN: usize = 83;

/// Length of the hex-encoded payload segment.
pub const PAYLOAD_LEN: usize = 66;

/// Purpose tag of an access token; a session identifier is never a token,
/// and a token never parses as one.
pub const TAG_ACCESS: u8 = 65;

/// ASCII dot, separating payload from signature.
pub const SEP: u8 = 46;

/// `256^n`, the number of values `n` little-endian bytes can denote.
pub open spec fn pow256(n: nat) -> nat
    decreases n,
{
    if n == 0 {
        1
    } else {
        256 * pow256((n - 1) as nat)
    }
}

/// Little-endian base-256 digits of `x`, `n` of them.
pub open spec fn bytes_of(x: nat, n: nat) -> Seq<u8>
    decreases n,
{
    if n == 0 {
        Seq::empty()
    } else {
        seq![(x % 256) as u8] + bytes_of(x / 256, (n - 1) as nat)
    }
}

/// The number a little-endian base-256 digit string denotes.
pub open spec fn val_of(s: Seq<u8>) -> nat
    decreases s.len(),
{
    if s.len() == 0 {
        0
    } else {
        s[0] as nat + 256 * val_of(s.subrange(1, s.len() as int))
    }
}

/// Lowercase hex character for one nibble (`n < 16`).
pub open spec fn nib_char(n: u8) -> u8 {
    if n < 10 {
        (48 + n) as u8
    } else {
        (87 + n) as u8
    }
}

/// Whether `c` is a lowercase hex character.
pub open spec fn is_hex_char(c: u8) -> bool {
    (48 <= c && c <= 57) || (97 <= c && c <= 102)
}

/// Nibble value of a lowercase hex character.
pub open spec fn nib_val(c: u8) -> u8
    recommends
        is_hex_char(c),
{
    if 48 <= c && c <= 57 {
        (c - 48) as u8
    } else if 97 <= c && c <= 102 {
        (c - 87) as u8
    } else {
        0
    }
}

/// Hex encoding of a byte string, two characters per byte, high nibble
/// first.
pub open spec fn hex_of(s: Seq<u8>) -> Seq<u8>
    decreases s.len(),
{
    if s.len() == 0 {
        Seq::empty()
    } else {
        seq![nib_char(s[0] / 16), nib_char(s[0] % 16)] + hex_of(s.subrange(1, s.len() as int))
    }
}

/// Hex decoding, the inverse of `hex_of` on valid input.
pub open spec fn unhex(s: Seq<u8>) -> Seq<u8>
    decreases s.len(),
{
    if s.len() < 2 {
        Seq::empty()
    } else {
        seq![(nib_val(s[0]) * 16 + nib_val(s[1])) as u8] + unhex(s.subrange(2, s.len() as int))
    }
}

/// Every character of `s` is a lowercase hex character.
pub open spec fn all_hex(s: Seq<u8>) -> bool {
    forall|i: int| 0 <= i < s.len() ==> is_hex_char(#[trigger] s[i])
}

/// One step of the keyed signature fold.
pub open spec fn sig_step(acc: u64, b: u8) -> u64 {
    vstd::wrapping::u64_specs::wrapping_add(vstd::wrapping::u64_specs::wrapping_mul(acc, 31), b as u64)
}

/// Keyed signature fold over a byte string, seeded with the signing key.
pub open spec fn fold64(acc: u64, s: Seq<u8>) -> u64
    decreases s.len(),
{
    if s.len() == 0 {
        acc
    } else {
        fold64(sig_step(acc, s[0]), s.subrange(1, s.len() as int))
    }
}

/// Raw (pre-hex) payload of a token.
pub open spec fn raw_payload(subject: u128, iat: u64, exp: u64) -> Seq<u8> {
    seq![TAG_ACCESS] + bytes_of(subject as nat, 16) + bytes_of(iat as nat, 8) + bytes_of(
        exp as nat,
        8,
    )
}

/// Hex payload segment of a token.
pub open spec fn payload_spec(subject: u128, iat: u64, exp: u64) -> Seq<u8> {
    hex_of(raw_payload(subject, iat, exp))
}

/// The token `issue` produces for a subject, an issue time and an expiry.
pub open spec fn token_spec(key: u64, subject: u128, iat: u64, exp: u64) -> Seq<u8> {
    let p = payload_spec(subject, iat, exp);
    p + seq![SEP] + hex_of(bytes_of(fold64(key, p) as nat, 8))
}

/// Subject identifier carried by a token of valid shape.
pub open spec fn subject_of(t: Seq<u8>) -> u128 {
    val_of(unhex(t.subrange(2, 34))) as u128
}

/// Absolute expiry second carried by a token of valid shape.
pub open spec fn expiry_of(t: Seq<u8>) -> u64 {
    val_of(unhex(t.subrange(50, 66))) as u64
}

/// The signature segment a token with payload `t[0..66]` must carry under
/// `key`.
pub open spec fn sig_hex_of(key: u64, t: Seq<u8>) -> Seq<u8> {
    hex_of(bytes_of(fold64(key, t.subrange(0, 66)) as nat, 8))
}

/// What verification returns: the full decision procedure over the token
/// bytes, the key and the current time. Structural faults come first, then
/// the signature, then expiry; `now >= expiry` is expired, so a token issued
/// with zero time to live is never accepted.
pub open spec fn verify_spec(key: u64, t: Seq<u8>, now: u64) -> Result<u128, TokenError> {
    if t.len() != 83 {
        Err(TokenError::Malformed)
    } else if !all_hex(t.subrange(0, 66)) {
        Err(TokenError::Malformed)
    } else if t[66] != SEP {
        Err(TokenError::Malformed)
    } else if unhex(t.subrange(0, 2)) != seq![TAG_ACCESS] {
        Err(TokenError::Malformed)
    } else if t.subrange(67, 83) != sig_hex_of(key, t) {
        Err(TokenError::InvalidSignature)
    } else if now >= expiry_of(t) {
        Err(TokenError::Expired)
    } else {
        Ok(subject_of(t))
    }
}

pub proof fn lemma_bytes_of_len(x: nat, n: nat)
    ensures
        bytes_of(x, n).len() == n,
    decreases n,
{
    if n > 0 {
        lemma_bytes_of_len(x / 256, (n - 1) as nat);
    }
}

pub proof fn lemma_val_of_bytes_of(x: nat, n: nat)
    requires
        x < pow256(n),
    ensures
        val_of(bytes_of(x, n)) == x,
    decreases n,
{
    if n == 0 {
        assert(pow256(0) == 1);
    } else {
        let m = (n - 1) as nat;
        assert(pow256(n) == 256 * pow256(m));
        lemma_multiply_divide_lt(x as int, 256, pow256(m) as int);
        lemma_val_of_bytes_of(x / 256, m);
        let b = bytes_of(x, n);
        assert(b == seq![(x % 256) as u8] + bytes_of(x / 256, m));
        assert(b.subrange(1, b.len() as int) =~= bytes_of(x / 256, m));
        lemma_fundamental_div_mod(x as int, 256);
    }
}

pub proof fn lemma_val_of_bound(s: Seq<u8>)
    ensures
        val_of(s) < pow256(s.len() as nat),
    decreases s.len(),
{
    if s.len() == 0 {
        assert(pow256(0) == 1);
    } else {
        let rest = s.subrange(1, s.len() as int);
        lemma_val_of_bound(rest);
        let m = (s.len() - 1) as nat;
        assert(pow256(s.len() as nat) == 256 * pow256(m));
        assert(s[0] as nat + 256 * val_of(rest) < 256 * pow256(m)) by (nonlinear_arith)
            requires
                val_of(rest) < pow256(m),
                s[0] < 256,
        ;
    }
}

pub proof fn lemma_hex_of_len(s: Seq<u8>)
    ensures
        hex_of(s).len() == 2 * s.len(),
    decreases s.len(),
{
    if s.len() > 0 {
        lemma_hex_of_len(s.subrange(1, s.len() as int));
    }
}

pub proof fn lemma_hex_of_all_hex(s: Seq<u8>)
    ensures
        all_hex(hex_of(s)),
    decreases s.len(),
{
    if s.len() > 0 {
        let rest = s.subrange(1, s.len() as int);
        lemma_hex_of_all_hex(rest);
        assert(s[0] / 16 < 16 && s[0] % 16 < 16);
        assert(forall|i: int|
            0 <= i < hex_of(s).len() ==> is_hex_char(#[trigger] hex_of(s)[i])) by {
            assert forall|i: int| 0 <= i < hex_of(s).len() implies is_hex_char(
                #[trigger] hex_of(s)[i],
            ) by {
                if i >= 2 {
                    assert(hex_of(s)[i] == hex_of(rest)[i - 2]);
                }
            }
        }
    }
}

pub proof fn lemma_hex_of_concat(a: Seq<u8>, b: Seq<u8>)
    ensures
        hex_of(a + b) == hex_of(a) + hex_of(b),
    decreases a.len(),
{
    if a.len() == 0 {
        assert(a + b =~= b);
        assert(hex_of(a) + hex_of(b) =~= hex_of(b));
    } else {
        let arest = a.subrange(1, a.len() as int);
        assert((a + b).subrange(1, (a + b).len() as int) =~= arest + b);
        lemma_hex_of_concat(arest, b);
        assert((a + b)[0] == a[0]);
        assert(hex_of(a + b) =~= hex_of(a) + hex_of(b));
    }
}

pub proof fn lemma_unhex_hex_of(s: Seq<u8>)
    ensures
        unhex(hex_of(s)) == s,
    decreases s.len(),
{
    if s.len() == 0 {
        assert(unhex(hex_of(s)) =~= s);
    } else {
        let rest = s.subrange(1, s.len() as int);
        lemma_unhex_hex_of(rest);
        let h = hex_of(s);
        lemma_hex_of_len(s);
        assert(h.subrange(2, h.len() as int) =~= hex_of(rest));
        let hi = s[0] / 16;
        let lo = s[0] % 16;
        assert(hi < 16 && lo < 16);
        assert(nib_val(nib_char(hi)) == hi);
        assert(nib_val(nib_char(lo)) == lo);
        lemma_fundamental_div_mod(s[0] as int, 16);
        assert((nib_val(h[0]) * 16 + nib_val(h[1])) as u8 == s[0]);
        assert(unhex(h) =~= s);
    }
}

pub proof fn lemma_unhex_concat(a: Seq<u8>, b: Seq<u8>)
    requires
        a.len() % 2 == 0,
    ensures
        unhex(a + b) == unhex(a) + unhex(b),
    decreases a.len(),
{
    if a.len() == 0 {
        assert(a + b =~= b);
        assert(unhex(a) + unhex(b) =~= unhex(b));
    } else {
        let arest = a.subrange(2, a.len() as int);
        assert((a + b).subrange(2, (a + b).len() as int) =~= arest + b);
        lemma_unhex_concat(arest, b);
        assert((a + b)[0] == a[0] && (a + b)[1] == a[1]);
        assert(unhex(a + b) =~= unhex(a) + unhex(b));
    }
}

pub proof fn lemma_fold64_snoc(acc: u64, s: Seq<u8>, b: u8)
    ensures
        fold64(acc, s.push(b)) == sig_step(fold64(acc, s), b),
    decreases s.len(),
{
    let sp = s.push(b);
    assert(sp.len() == s.len() + 1);
    if s.len() == 0 {
        assert(sp.subrange(1, sp.len() as int) =~= Seq::<u8>::empty());
        assert(sp[0] == b);
        assert(fold64(acc, sp) == fold64(sig_step(acc, b), sp.subrange(1, sp.len() as int)));
        assert(fold64(acc, sp) == sig_step(acc, b));
        assert(fold64(acc, s) == acc);
    } else {
        let srest = s.subrange(1, s.len() as int);
        assert(sp[0] == s[0]);
        assert(sp.subrange(1, sp.len() as int) =~= srest.push(b));
        assert(fold64(acc, sp) == fold64(sig_step(acc, s[0]), srest.push(b)));
        lemma_fold64_snoc(sig_step(acc, s[0]), srest, b);
        assert(fold64(acc, s) == fold64(sig_step(acc, s[0]), srest));
    }
}

fn nib_char_x(n: u8) -> (r: u8)
    requires
        n < 16,
    ensures
        r == nib_char(n),
{
    if n < 10 {
        48 + n
    } else {
        87 + n
    }
}

fn is_hex_x(c: u8) -> (r: bool)
    ensures
        r == is_hex_char(c),
{
    (48 <= c && c <= 57) || (97 <= c && c <= 102)
}

fn nib_val_x(c: u8) -> (r: u8)
    requires
        is_hex_char(c),
    ensures
        r == nib_val(c),
        r < 16,
{
    if c <= 57 {
        c - 48
    } else {
        c - 87
    }
}

/// Appends the `n` little-endian base-256 digits of `x`.
fn push_le_bytes(out: &mut Vec<u8>, x0: u128, n: usize)
    requires
        (x0 as nat) < pow256(n as nat),
    ensures
        final(out)@ == old(out)@ + bytes_of(x0 as nat, n as nat),
{
    let mut x = x0;
    let mut i: usize = 0;
    while i < n
        invariant
            i <= n,
            (x as nat) < pow256((n - i) as nat),
            out@ + bytes_of(x as nat, (n - i) as nat) == old(out)@ + bytes_of(
                x0 as nat,
                n as nat,
            ),
        decreases n - i,
    {
        let ghost k = (n - i) as nat;
        let ghost xg = x as nat;
        proof {
            assert(pow256(k) == 256 * pow256((k - 1) as nat));
            lemma_multiply_divide_lt(xg as int, 256, pow256((k - 1) as nat) as int);
            assert(bytes_of(xg, k) == seq![(xg % 256) as u8] + bytes_of(xg / 256, (k - 1) as nat));
        }
        out.push((x % 256) as u8);
        x = x / 256;
        i += 1;
        proof {
            assert(out@ + bytes_of(x as nat, (n - i) as nat) =~= old(out)@ + bytes_of(
                x0 as nat,
                n as nat,
            ));
        }
    }
    proof {
        assert(bytes_of(x as nat, 0) =~= Seq::<u8>::empty());
        assert(out@ =~= old(out)@ + bytes_of(x0 as nat, n as nat));
    }
}

/// Appends the hex encoding of `raw`.
fn push_hex(out: &mut Vec<u8>, raw: &Vec<u8>)
    ensures
        final(out)@ == old(out)@ + hex_of(raw@),
{
    let mut i: usize = 0;
    while i < raw.len()
        invariant
            i <= raw.len(),
            out@ == old(out)@ + hex_of(raw@.subrange(0, i as int)),
        decreases raw.len() - i,
    {
        let b = raw[i];
        out.push(nib_char_x(b / 16));
        out.push(nib_char_x(b % 16));
        i += 1;
        proof {
            let pre = raw@.subrange(0, i - 1 as int);
            assert(raw@.subrange(0, i as int) =~= pre + seq![b]);
            lemma_hex_of_concat(pre, seq![b]);
            assert(seq![b].subrange(1, 1) =~= Seq::<u8>::empty());
            assert(hex_of(Seq::<u8>::empty()) =~= Seq::<u8>::empty());
            assert(seq![b][0] == b);
            assert(hex_of(seq![b]) =~= seq![nib_char(b / 16), nib_char(b % 16)]);
            assert(out@ =~= old(out)@ + hex_of(raw@.subrange(0, i as int)));
        }
    }
    proof {
        assert(raw@.subrange(0, raw@.len() as int) =~= raw@);
    }
}

/// Signature fold over `s[start..end]`, seeded with `acc0`.
pub(crate) fn fold_range(acc0: u64, s: &Vec<u8>, start: usize, end: usize) -> (r: u64)
    requires
        start <= end,
        end <= s.len(),
    ensures
        r == fold64(acc0, s@.subrange(start as int, end as int)),
{
    let mut acc = acc0;
    let mut i = start;
    while i < end
        invariant
            start <= i <= end,
            end <= s.len(),
            acc == fold64(acc0, s@.subrange(start as int, i as int)),
        decreases end - i,
    {
        let b = s[i];
        acc = acc.wrapping_mul(31).wrapping_add(b as u64);
        i += 1;
        proof {
            let pre = s@.subrange(start as int, i - 1 as int);
            assert(s@.subrange(start as int, i as int) =~= pre.push(b));
            lemma_fold64_snoc(acc0, pre, b);
        }
    }
    acc
}

/// Decodes the hex characters `t[start..start + len2]` to bytes.
fn unhex_range(t: &Vec<u8>, start: usize, len2: usize) -> (r: Vec<u8>)
    requires
        start + len2 <= t.len(),
        len2 % 2 == 0,
        all_hex(t@.subrange(start as int, (start + len2) as int)),
    ensures
        r@ == unhex(t@.subrange(start as int, (start + len2) as int)),
{
    let ghost whole = t@.subrange(start as int, (start + len2) as int);
    let mut out: Vec<u8> = Vec::new();
    let mut j: usize = 0;
    while j < len2
        invariant
            j <= len2,
            j % 2 == 0,
            len2 % 2 == 0,
            start + len2 <= t.len(),
            all_hex(whole),
            whole == t@.subrange(start as int, (start + len2) as int),
            out@ == unhex(t@.subrange(start as int, (start + j) as int)),
        decreases len2 - j,
    {
        proof {
            assert(whole[j as int] == t@[start + j]);
            assert(whole[j + 1] == t@[start + j + 1]);
        }
        let c1 = t[start + j];
        let c2 = t[start + j + 1];
        let v1 = nib_val_x(c1);
        let v2 = nib_val_x(c2);
        out.push(v1 * 16 + v2);
        j += 2;
        proof {
            let pre = t@.subrange(start as int, (start + j - 2) as int);
            let two = seq![c1, c2];
            assert(t@.subrange(start as int, (start + j) as int) =~= pre + two);
            lemma_unhex_concat(pre, two);
            assert(two.subrange(2, 2) =~= Seq::<u8>::empty());
            assert(unhex(Seq::<u8>::empty()) =~= Seq::<u8>::empty());
            assert(two[0] == c1 && two[1] == c2);
            assert(unhex(two) =~= seq![(nib_val(c1) * 16 + nib_val(c2)) as u8]);
            assert(out@ =~= unhex(t@.subrange(start as int, (start + j) as int)));
        }
    }
    out
}

/// Value of a little-endian byte string of at most 16 bytes.
fn le_val(s: &Vec<u8>) -> (r: u128)
    requires
        s.len() <= 16,
    ensures
        r as nat == val_of(s@),
{
    let n = s.len();
    let mut acc: u128 = 0;
    let mut j = n;
    while j > 0
        invariant
            j <= n,
            n == s.len() <= 16,
            acc as nat == val_of(s@.subrange(j as int, n as int)),
        decreases j,
    {
        let ghost tail = s@.subrange(j as int, n as int);
        proof {
            lemma_val_of_bound(tail);
            lemma_pow256_le((n - j) as nat, 15);
            assert(pow256(15) < pow256(16)) by {
                assert(pow256(16) == 256 * pow256(15));
                assert(pow256(15) >= 1) by { lemma_pow256_pos(15) };
            }
            lemma_pow256_16();
            assert(256 * (acc as nat) + 255 < pow256(16)) by (nonlinear_arith)
                requires
                    (acc as nat) < pow256(15),
                    pow256(16) == 256 * pow256(15),
            ;
        }
        let b = s[j - 1];
        acc = 256 * acc + (b as u128);
        j -= 1;
        proof {
            let tl = s@.subrange(j as int, n as int);
            assert(tl[0] == s@[j as int]);
            assert(tl.subrange(1, tl.len() as int) =~= s@.subrange(j + 1, n as int));
        }
    }
    proof {
        assert(s@.subrange(0, n as int) =~= s@);
    }
    acc
}

/// `256^16` is the number of values of a 16-byte identifier.
pub proof fn lemma_pow256_16()
    ensures
        pow256(8) == 0x10000000000000000,
        pow256(16) == 0x100000000000000000000000000000000,
{
    assert(pow256(0) == 1);
    assert(pow256(1) == 256);
    assert(pow256(2) == 0x10000);
    assert(pow256(3) == 0x1000000);
    assert(pow256(4) == 0x100000000);
    assert(pow256(5) == 0x10000000000);
    assert(pow256(6) == 0x1000000000000);
    assert(pow256(7) == 0x100000000000000);
    assert(pow256(8) == 0x10000000000000000);
    assert(pow256(9) == 0x1000000000000000000);
    assert(pow256(10) == 0x100000000000000000000);
    assert(pow256(11) == 0x10000000000000000000000);
    assert(pow256(12) == 0x1000000000000000000000000);
    assert(pow256(13) == 0x100000000000000000000000000);
    assert(pow256(14) == 0x10000000000000000000000000000);
    assert(pow256(15) == 0x1000000000000000000000000000000);
    assert(pow256(16) == 0x100000000000000000000000000000000);
}

pub proof fn lemma_pow256_pos(n: nat)
    ensures
        pow256(n) >= 1,
    decreases n,
{
    if n > 0 {
        lemma_pow256_pos((n - 1) as nat);
    }
}

pub proof fn lemma_pow256_le(a: nat, b: nat)
    requires
        a <= b,
    ensures
        pow256(a) <= pow256(b),
    decreases b,
{
    if a < b {
        lemma_pow256_le(a, (b - 1) as nat);
        lemma_pow256_pos((b - 1) as nat);
        assert(pow256(b) == 256 * pow256((b - 1) as nat));
    }
}

pub proof fn lemma_unhex_len(s: Seq<u8>)
    requires
        s.len() % 2 == 0,
    ensures
        unhex(s).len() == s.len() / 2,
    decreases s.len(),
{
    if s.len() >= 2 {
        lemma_unhex_len(s.subrange(2, s.len() as int));
    }
}

/// Issues a signed access token binding `subject` to the absolute expiry
/// `now + ttl`, hex-encoded and signed under `key`.
pub fn issue(key: u64, subject: u128, now: u64, ttl: u64) -> (r: Vec<u8>)
    requires
        now + ttl <= u64::MAX,
    ensures
        r@ == token_spec(key, subject, now, (now + ttl) as u64),
{
    let exp = now + ttl;
    proof {
        lemma_pow256_16();
    }
    let mut raw: Vec<u8> = Vec::new();
    raw.push(TAG_ACCESS);
    push_le_bytes(&mut raw, subject, 16);
    push_le_bytes(&mut raw, now as u128, 8);
    push_le_bytes(&mut raw, exp as u128, 8);
    proof {
        assert(raw@ =~= raw_payload(subject, now, exp));
    }
    let mut tok: Vec<u8> = Vec::new();
    push_hex(&mut tok, &raw);
    proof {
        assert(tok@ =~= payload_spec(subject, now, exp));
    }
    let sig = fold_range(key, &tok, 0, tok.len());
    proof {
        assert(tok@.subrange(0, tok@.len() as int) =~= tok@);
    }
    let mut sigraw: Vec<u8> = Vec::new();
    push_le_bytes(&mut sigraw, sig as u128, 8);
    tok.push(SEP);
    push_hex(&mut tok, &sigraw);
    proof {
        assert(sigraw@ =~= bytes_of(sig as nat, 8));
        assert(tok@ =~= token_spec(key, subject, now, exp));
    }
    tok
}

/// Verifies a presented token under `key` at time `now`, returning the
/// subject it binds; the result is exactly `verify_spec` of the bytes.
pub fn verify(key: u64, t: &Vec<u8>, now: u64) -> (r: Result<u128, TokenError>)
    ensures
        r == verify_spec(key, t@, now),
{
    if t.len() != 83 {
        return Err(TokenError::Malformed);
    }
    let ghost sub66 = t@.subrange(0, 66);
    let mut i: usize = 0;
    while i < 66
        invariant
            i <= 66,
            t@.len() == 83,
            sub66 == t@.subrange(0, 66),
            forall|k: int| 0 <= k < i ==> is_hex_char(#[trigger] t@[k]),
        decreases 66 - i,
    {
        if !is_hex_x(t[i]) {
            proof {
                assert(sub66[i as int] == t@[i as int]);
                assert(!all_hex(sub66));
            }
            return Err(TokenError::Malformed);
        }
        i += 1;
    }
    proof {
        assert forall|k: int| 0 <= k < 66 implies is_hex_char(#[trigger] sub66[k]) by {
            assert(sub66[k] == t@[k]);
        }
        assert(all_hex(sub66));
    }
    if t[66] != SEP {
        return Err(TokenError::Malformed);
    }
    let v1 = nib_val_x(t[0]);
    let v2 = nib_val_x(t[1]);
    let tag = v1 * 16 + v2;
    proof {
        let two = t@.subrange(0, 2);
        assert(two[0] == t@[0] && two[1] == t@[1]);
        assert(two.subrange(2, 2) =~= Seq::<u8>::empty());
        assert(unhex(Seq::<u8>::empty()) =~= Seq::<u8>::empty());
        assert(unhex(two) =~= seq![(nib_val(t@[0]) * 16 + nib_val(t@[1])) as u8]);
        assert(unhex(two)[0] == tag);
        assert(seq![TAG_ACCESS][0] == TAG_ACCESS);
    }
    if tag != TAG_ACCESS {
        proof {
            assert(unhex(t@.subrange(0, 2)) != seq![TAG_ACCESS]);
        }
        return Err(TokenError::Malformed);
    }
    let sig = fold_range(key, t, 0, 66);
    proof {
        lemma_pow256_16();
    }
    let mut sigraw: Vec<u8> = Vec::new();
    push_le_bytes(&mut sigraw, sig as u128, 8);
    let mut sighex: Vec<u8> = Vec::new();
    push_hex(&mut sighex, &sigraw);
    proof {
        assert(sigraw@ =~= bytes_of(sig as nat, 8));
        lemma_bytes_of_len(sig as nat, 8);
        lemma_hex_of_len(bytes_of(sig as nat, 8));
        assert(sighex@ =~= sig_hex_of(key, t@));
        assert(sighex@.len() == 16);
    }
    let mut k: usize = 0;
    while k < 16
        invariant
            k <= 16,
            t@.len() == 83,
            all_hex(t@.subrange(0, 66)),
            t@[66] == SEP,
            unhex(t@.subrange(0, 2)) == seq![TAG_ACCESS],
            sighex@.len() == 16,
            sighex@ == sig_hex_of(key, t@),
            forall|m: int| 0 <= m < k ==> t@[67 + m] == sighex@[m],
        decreases 16 - k,
    {
        if t[67 + k] != sighex[k] {
            proof {
                assert(t@.subrange(67, 83)[k as int] == t@[67 + k]);
                assert(t@.subrange(67, 83) != sig_hex_of(key, t@));
            }
            return Err(TokenError::InvalidSignature);
        }
        k += 1;
    }
    proof {
        assert(t@.subrange(67, 83) =~= sig_hex_of(key, t@)) by {
            assert forall|m: int| 0 <= m < 16 implies t@.subrange(67, 83)[m] == sig_hex_of(
                key,
                t@,
            )[m] by {
                assert(t@.subrange(67, 83)[m] == t@[67 + m]);
            }
        }
    }
    proof {
        assert forall|m: int| 0 <= m < 16 implies is_hex_char(
            #[trigger] t@.subrange(50, 66)[m],
        ) by {
            assert(t@.subrange(50, 66)[m] == t@[50 + m]);
            assert(sub66[50 + m] == t@[50 + m]);
        }
        assert(all_hex(t@.subrange(50, 66)));
    }
    let expraw = unhex_range(t, 50, 16);
    proof {
        lemma_unhex_len(t@.subrange(50, 66));
        lemma_val_of_bound(expraw@);
        lemma_pow256_16();
        assert((val_of(expraw@) as int) <= u64::MAX as int);
    }
    let expv = le_val(&expraw);
    let exp64 = expv as u64;
    proof {
        assert(exp64 == expiry_of(t@));
    }
    if now >= exp64 {
        return Err(TokenError::Expired);
    }
    proof {
        assert forall|m: int| 0 <= m < 32 implies is_hex_char(
            #[trigger] t@.subrange(2, 34)[m],
        ) by {
            assert(t@.subrange(2, 34)[m] == t@[2 + m]);
            assert(sub66[2 + m] == t@[2 + m]);
        }
        assert(all_hex(t@.subrange(2, 34)));
    }
    let subraw = unhex_range(t, 2, 32);
    proof {
        lemma_unhex_len(t@.subrange(2, 34));
    }
    let subv = le_val(&subraw);
    proof {
        assert(subv == subject_of(t@));
    }
    Ok(subv)
}

/// Structural facts about every issued token: its shape passes each check
/// of `verify_spec`, and it carries back exactly the subject and expiry it
/// was issued with.
proof fn lemma_token_shape(key: u64, subject: u128, iat: u64, exp: u64)
    ensures
        ({
            let t = token_spec(key, subject, iat, exp);
            &&& t.len() == 83
            &&& all_hex(t.subrange(0, 66))
            &&& t[66] == SEP
            &&& unhex(t.subrange(0, 2)) == seq![TAG_ACCESS]
            &&& t.subrange(67, 83) == sig_hex_of(key, t)
            &&& expiry_of(t) == exp
            &&& subject_of(t) == subject
        }),
{
    lemma_pow256_16();
    let a = seq![TAG_ACCESS];
    let b16 = bytes_of(subject as nat, 16);
    let c8 = bytes_of(iat as nat, 8);
    let d8 = bytes_of(exp as nat, 8);
    let raw = raw_payload(subject, iat, exp);
    lemma_bytes_of_len(subject as nat, 16);
    lemma_bytes_of_len(iat as nat, 8);
    lemma_bytes_of_len(exp as nat, 8);
    assert(raw.len() == 33);
    let p = hex_of(raw);
    lemma_hex_of_len(raw);
    let sig = fold64(key, p);
    let sb = bytes_of(sig as nat, 8);
    lemma_bytes_of_len(sig as nat, 8);
    let sh = hex_of(sb);
    lemma_hex_of_len(sb);
    let t = token_spec(key, subject, iat, exp);
    assert(t.len() == 83);
    assert(t.subrange(0, 66) =~= p);
    lemma_hex_of_all_hex(raw);
    assert(t[66] == SEP);
    lemma_hex_of_concat((a + b16) + c8, d8);
    lemma_hex_of_concat(a + b16, c8);
    lemma_hex_of_concat(a, b16);
    lemma_hex_of_len(a);
    lemma_hex_of_len(b16);
    lemma_hex_of_len(c8);
    assert(raw == ((a + b16) + c8) + d8);
    assert(p == ((hex_of(a) + hex_of(b16)) + hex_of(c8)) + hex_of(d8));
    assert(t.subrange(0, 2) =~= hex_of(a));
    lemma_unhex_hex_of(a);
    assert(t.subrange(67, 83) =~= sh);
    assert(fold64(key, t.subrange(0, 66)) == sig);
    assert(t.subrange(50, 66) =~= hex_of(d8));
    lemma_unhex_hex_of(d8);
    lemma_val_of_bytes_of(exp as nat, 8);
    assert(expiry_of(t) == exp);
    assert(t.subrange(2, 34) =~= hex_of(b16));
    lemma_unhex_hex_of(b16);
    lemma_val_of_bytes_of(subject as nat, 16);
    assert(subject_of(t) == subject);
}

/// Round trip: a token issued for a subject verifies, under the same key
/// and before its expiry, to exactly that subject.
pub proof fn lemma_token_round_trip(key: u64, subject: u128, iat: u64, exp: u64, now: u64)
    requires
        now < exp,
    ensures
        verify_spec(key, token_spec(key, subject, iat, exp), now) == Ok::<u128, TokenError>(
            subject,
        ),
{
    lemma_token_shape(key, subject, iat, exp);
}

/// Expiry: from its expiry second on — so immediately, when issued with a
/// zero time to live — a token verifies to `Expired`.
pub proof fn lemma_token_expiry(key: u64, subject: u128, iat: u64, exp: u64, now: u64)
    requires
        now >= exp,
    ensures
        verify_spec(key, token_spec(key, subject, iat, exp), now) == Err::<u128, TokenError>(
            TokenError::Expired,
        ),
{
    lemma_token_shape(key, subject, iat, exp);
}

/// Tamper rejection: any change confined to the signature segment of an
/// issued token — flipping any bit of it — makes verification fail with
/// `InvalidSignature`; it never succeeds with any subject.
pub proof fn lemma_tamper_rejected(
    key: u64,
    subject: u128,
    iat: u64,
    exp: u64,
    t: Seq<u8>,
    now: u64,
)
    requires
        t.len() == token_spec(key, subject, iat, exp).len(),
        t.subrange(0, 67) == token_spec(key, subject, iat, exp).subrange(0, 67),
        t != token_spec(key, subject, iat, exp),
    ensures
        verify_spec(key, t, now) == Err::<u128, TokenError>(TokenError::InvalidSignature),
{
    let w = token_spec(key, subject, iat, exp);
    lemma_token_shape(key, subject, iat, exp);
    assert forall|i: int| 0 <= i < 67 implies t[i] == w[i] by {
        assert(t.subrange(0, 67)[i] == t[i]);
        assert(w.subrange(0, 67)[i] == w[i]);
    }
    assert(t.len() == 83);
    assert(t.subrange(0, 66) =~= w.subrange(0, 66));
    assert forall|i: int| 0 <= i < 66 implies is_hex_char(#[trigger] t.subrange(0, 66)[i]) by {
        assert(t.subrange(0, 66)[i] == w.subrange(0, 66)[i]);
        assert(is_hex_char(w.subrange(0, 66)[i]));
    }
    assert(all_hex(t.subrange(0, 66)));
    assert(t[66] == SEP);
    assert(t.subrange(0, 2) =~= w.subrange(0, 2));
    assert(unhex(t.subrange(0, 2)) == seq![TAG_ACCESS]);
    assert(sig_hex_of(key, t) == sig_hex_of(key, w));
    if t.subrange(67, 83) == sig_hex_of(key, t) {
        assert forall|i: int| 0 <= i < 83 implies t[i] == w[i] by {
            if i >= 67 {
                assert(t.subrange(67, 83)[i - 67] == t[i]);
                assert(w.subrange(67, 83)[i - 67] == w[i]);
            }
        }
        assert(t =~= w);
        assert(false);
    }
}

} // verus!
