//! Token minting and verification over a rotating key set.
//!
//! A minted token carries the claim's fields openly, together with an
//! authentication tag computed by an external hash over the signing key and
//! a canonical byte image of those fields. Verification finds the key the
//! token names, recomputes the tag, and hands the embedded claim back only
//! when the tag matches and the token has not expired.

use vstd::prelude::*;

use crate::claim::NebulaClaim;
use crate::claim::Role;
use vstd::string::StringSliceAdditionalSpecFns;

verus! {

/// The key id a generated default key set carries when none is configured.
pub fn jwk_set_default_key_id() -> (r: String)
    ensures
        r@ == "default"@,
{
    String::from_str("default")
}

/// One signing key: an identifier and the secret material the tag is
/// computed from.
pub struct Jwk {
    pub kid: String,
    pub secret: Vec<u8>,
}

/// The rotating signing material: an ordered set of keys with a designated
/// active key id.
pub struct JwkSet {
    pub keys: Vec<Jwk>,
    pub active_kid: String,
}

/// What token handling can report.
#[derive(Debug)]
pub enum Error {
    InvalidSignature,
    Expired,
    Anyhow(String),
}

/// What the external hash returns for a byte sequence: a function of the
/// input alone.
pub uninterp spec fn sha256_of(msg: Seq<u8>) -> Seq<u8>;

/// Relies on miracl_core's HASH256 (new, process_array, hash): the SHA-256
/// digest of the input bytes, 32 bytes long.
#[verifier::external_body]
fn sha256(msg: &[u8]) -> (r: Vec<u8>)
    ensures
        r@ == sha256_of(msg@),
        r@.len() == 32,
{
    let mut h = miracl_core::hash256::HASH256::new();
    h.process_array(msg);
    let d = h.hash();
    d.to_vec()
}

/// The little-endian bytes of a 64-bit integer.
pub open spec fn u64_le(x: u64) -> Seq<u8> {
    seq![
        (x & 0xff) as u8,
        ((x >> 8) & 0xff) as u8,
        ((x >> 16) & 0xff) as u8,
        ((x >> 24) & 0xff) as u8,
        ((x >> 32) & 0xff) as u8,
        ((x >> 40) & 0xff) as u8,
        ((x >> 48) & 0xff) as u8,
        ((x >> 56) & 0xff) as u8,
    ]
}

fn push_u64(dst: &mut Vec<u8>, x: u64)
    ensures
        final(dst)@ == old(dst)@ + u64_le(x),
{
    let ghost before = dst@;
    dst.push((x & 0xff) as u8);
    dst.push(((x >> 8) & 0xff) as u8);
    dst.push(((x >> 16) & 0xff) as u8);
    dst.push(((x >> 24) & 0xff) as u8);
    dst.push(((x >> 32) & 0xff) as u8);
    dst.push(((x >> 40) & 0xff) as u8);
    dst.push(((x >> 48) & 0xff) as u8);
    dst.push(((x >> 56) & 0xff) as u8);
    proof {
        assert(dst@ =~= before + u64_le(x));
    }
}

fn push_bytes(dst: &mut Vec<u8>, src: &[u8])
    ensures
        final(dst)@ == old(dst)@ + src@,
{
    let mut i: usize = 0;
    while i < src.len()
        invariant
            0 <= i <= src@.len(),
            dst@ =~= old(dst)@ + src@.take(i as int),
        decreases src@.len() - i,
    {
        dst.push(src[i]);
        proof {
            assert(dst@ =~= old(dst)@ + src@.take(i + 1));
        }
        i = i + 1;
    }
    proof {
        assert(dst@ =~= old(dst)@ + src@);
    }
}

/// The byte a role contributes to the canonical image.
pub open spec fn role_byte(r: Role) -> u8 {
    match r {
        Role::Member => 1u8,
        Role::Admin => 2u8,
    }
}

/// The canonical image of one attribute binding.
pub open spec fn pair_bytes(k: Seq<char>, v: Seq<char>) -> Seq<u8> {
    seq![1u8] + vstd::utf8::encode_utf8(k) + seq![2u8] + vstd::utf8::encode_utf8(v)
}

/// The canonical image of an attribute list, in order.
pub open spec fn attrs_bytes(attrs: Seq<(Seq<char>, Seq<char>)>) -> Seq<u8>
    decreases attrs.len(),
{
    if attrs.len() == 0 {
        Seq::empty()
    } else {
        attrs_bytes(attrs.drop_last()) + pair_bytes(attrs.last().0, attrs.last().1)
    }
}

/// The canonical byte image of an issued claim: the issuer, the claim's
/// fields, and the issue and expiry times.
pub open spec fn payload_bytes(
    iss: Seq<char>,
    gid: Seq<char>,
    workspace_name: Seq<char>,
    role: Role,
    attrs: Seq<(Seq<char>, Seq<char>)>,
    iat: u64,
    exp: u64,
) -> Seq<u8> {
    seq![0u8] + vstd::utf8::encode_utf8(iss) + seq![0u8] + vstd::utf8::encode_utf8(gid) + seq![0u8]
        + vstd::utf8::encode_utf8(workspace_name) + seq![0u8, role_byte(role)] + attrs_bytes(attrs)
        + u64_le(iat) + u64_le(exp)
}

/// The tag a key computes over a claim image.
pub open spec fn spec_token_tag(
    secret: Seq<u8>,
    iss: Seq<char>,
    gid: Seq<char>,
    workspace_name: Seq<char>,
    role: Role,
    attrs: Seq<(Seq<char>, Seq<char>)>,
    iat: u64,
    exp: u64,
) -> Seq<u8> {
    sha256_of(secret + payload_bytes(iss, gid, workspace_name, role, attrs, iat, exp))
}

fn build_payload(
    iss: &str,
    gid: &str,
    workspace_name: &str,
    role: Role,
    attributes: &Vec<(String, String)>,
    iat: u64,
    exp: u64,
) -> (r: Vec<u8>)
    ensures
        r@ == payload_bytes(
            iss@,
            gid@,
            workspace_name@,
            role,
            attributes@.map_values(|p: (String, String)| (p.0@, p.1@)),
            iat,
            exp,
        ),
{
    let ghost av = attributes@.map_values(|p: (String, String)| (p.0@, p.1@));
    let mut r: Vec<u8> = Vec::new();
    r.push(0u8);
    push_bytes(&mut r, iss.as_bytes());
    r.push(0u8);
    push_bytes(&mut r, gid.as_bytes());
    r.push(0u8);
    push_bytes(&mut r, workspace_name.as_bytes());
    r.push(0u8);
    match role {
        Role::Member => r.push(1u8),
        Role::Admin => r.push(2u8),
    }
    let ghost head = r@;
    proof {
        assert(head =~= seq![0u8] + vstd::utf8::encode_utf8(iss@) + seq![0u8]
            + vstd::utf8::encode_utf8(gid@) + seq![0u8] + vstd::utf8::encode_utf8(workspace_name@)
            + seq![0u8, role_byte(role)]);
    }
    let mut i: usize = 0;
    while i < attributes.len()
        invariant
            0 <= i <= attributes@.len(),
            av == attributes@.map_values(|p: (String, String)| (p.0@, p.1@)),
            r@ == head + attrs_bytes(av.take(i as int)),
        decreases attributes@.len() - i,
    {
        let ghost before = r@;
        r.push(1u8);
        push_bytes(&mut r, attributes[i].0.as_str().as_bytes());
        r.push(2u8);
        push_bytes(&mut r, attributes[i].1.as_str().as_bytes());
        proof {
            assert(av[i as int] == (attributes@[i as int].0@, attributes@[i as int].1@));
            assert(r@ =~= before + pair_bytes(av[i as int].0, av[i as int].1));
            assert(av.take(i + 1).drop_last() =~= av.take(i as int));
            assert(av.take(i + 1).last() == av[i as int]);
            assert(r@ =~= head + (attrs_bytes(av.take(i as int)) + pair_bytes(
                av[i as int].0,
                av[i as int].1,
            )));
            assert(attrs_bytes(av.take(i + 1)) == attrs_bytes(av.take(i + 1).drop_last())
                + pair_bytes(av.take(i + 1).last().0, av.take(i + 1).last().1));
            assert(r@ =~= head + attrs_bytes(av.take(i + 1)));
        }
        i = i + 1;
    }
    proof {
        assert(av.take(av.len() as int) =~= av);
    }
    push_u64(&mut r, iat);
    push_u64(&mut r, exp);
    proof {
        assert(r@ =~= payload_bytes(iss@, gid@, workspace_name@, role, av, iat, exp));
    }
    r
}

/// Compares two byte strings.
pub fn bytes_eq(a: &Vec<u8>, b: &Vec<u8>) -> (r: bool)
    ensures
        r == (a@ == b@),
{
    if a.len() != b.len() {
        return false;
    }
    let mut i: usize = 0;
    while i < a.len()
        invariant
            0 <= i <= a@.len(),
            a@.len() == b@.len(),
            forall|m: int| 0 <= m < i ==> a@[m] == b@[m],
        decreases a@.len() - i,
    {
        if a[i] != b[i] {
            return false;
        }
        i = i + 1;
    }
    proof {
        assert(a@ =~= b@);
    }
    true
}

/// The first key with the given id, scanning from `pos`.
pub open spec fn find_key_from(keys: Seq<Jwk>, kid: Seq<char>, pos: int) -> Option<int>
    decreases keys.len() - pos,
{
    if pos < 0 || pos >= keys.len() {
        None
    } else if keys[pos].kid@ == kid {
        Some(pos)
    } else {
        find_key_from(keys, kid, pos + 1)
    }
}

/// A scan that saw no matching key id up to a frontier pins the first match.
proof fn lemma_find_key_frontier(keys: Seq<Jwk>, kid: Seq<char>, i: int, k: int)
    requires
        0 <= i <= k <= keys.len(),
        forall|m: int| 0 <= m < k ==> (#[trigger] keys[m].kid@) != kid,
    ensures
        find_key_from(keys, kid, i) == (if k < keys.len() && keys[k].kid@ == kid {
            Some(k)
        } else {
            find_key_from(keys, kid, k)
        }),
    decreases k - i,
{
    if i < k {
        lemma_find_key_frontier(keys, kid, i + 1, k);
    }
}

/// A verifiable token: the claim's fields in the open, the key id that
/// signed it, its times, and the tag.
pub struct CompactJwt {
    pub kid: String,
    pub iss: String,
    pub gid: String,
    pub workspace_name: String,
    pub role: Role,
    pub attributes: Vec<(String, String)>,
    pub iat: u64,
    pub exp: u64,
    pub tag: Vec<u8>,
}

impl CompactJwt {
    /// The attribute bindings as character-sequence pairs.
    pub open spec fn spec_attrs(&self) -> Seq<(Seq<char>, Seq<char>)> {
        self.attributes@.map_values(|p: (String, String)| (p.0@, p.1@))
    }
}

/// Whether a key set accepts a token at a given time: the named key exists,
/// the tag is the one that key computes over the token's own fields, and
/// the token has not expired.
pub open spec fn spec_verify_ok(keys: Seq<Jwk>, t: &CompactJwt, now: u64) -> bool {
    match find_key_from(keys, t.kid@, 0) {
        Some(i) => t.tag@ == spec_token_tag(
            keys[i].secret@,
            t.iss@,
            t.gid@,
            t.workspace_name@,
            t.role,
            t.spec_attrs(),
            t.iat,
            t.exp,
        ) && t.exp > now,
        None => false,
    }
}

/// A token whose tag is the one its key computes verifies while it lives:
/// minting and then verifying against the same set round-trips the claim.
pub proof fn lemma_mint_verify_roundtrip(keys: Seq<Jwk>, t: &CompactJwt, now: u64)
    requires
        find_key_from(keys, t.kid@, 0) is Some,
        t.tag@ == spec_token_tag(
            keys[find_key_from(keys, t.kid@, 0)->Some_0].secret@,
            t.iss@,
            t.gid@,
            t.workspace_name@,
            t.role,
            t.spec_attrs(),
            t.iat,
            t.exp,
        ),
        t.exp > now,
    ensures
        spec_verify_ok(keys, t, now),
{
}

/// Mints tokens under a fixed issuer, lifetime and key set.
pub struct TokenService {
    pub issuer: String,
    pub lifetime: u64,
    pub jwks: JwkSet,
}

impl TokenService {
    /// Fixes the signing material: the designated key id becomes active.
    pub fn new(issuer: String, lifetime: u64, jwks: JwkSet, kid: String) -> (r: TokenService)
        ensures
            r.issuer@ == issuer@,
            r.lifetime == lifetime,
            r.jwks.keys == jwks.keys,
            r.jwks.active_kid@ == kid@,
    {
        TokenService {
            issuer,
            lifetime,
            jwks: JwkSet { keys: jwks.keys, active_kid: kid },
        }
    }

    /// The public half of the signing material, for discovery.
    pub fn jwks(&self) -> (r: &JwkSet)
        ensures
            r == &self.jwks,
    {
        &self.jwks
    }

    /// Mints a token for a claim: the active key computes the tag over the
    /// claim's canonical image with `iat = now` and `exp = now + lifetime`.
    /// Fails only when the active key id names no key.
    pub fn mint(&self, claim: &NebulaClaim, now: u64) -> (r: Result<CompactJwt, Error>)
        requires
            now + self.lifetime <= u64::MAX,
        ensures
            match r {
                Ok(ref t) => {
                    &&& find_key_from(self.jwks.keys@, self.jwks.active_kid@, 0) is Some
                    &&& t.kid@ == self.jwks.active_kid@
                    &&& t.iss@ == self.issuer@
                    &&& t.gid@ == claim.gid@
                    &&& t.workspace_name@ == claim.workspace_name@
                    &&& t.role == claim.role
                    &&& t.spec_attrs() == claim.spec_attrs()
                    &&& t.iat == now
                    &&& t.exp == (now + self.lifetime) as u64
                    &&& t.tag@ == spec_token_tag(
                        self.jwks.keys@[find_key_from(
                            self.jwks.keys@,
                            self.jwks.active_kid@,
                            0,
                        )->Some_0].secret@,
                        self.issuer@,
                        claim.gid@,
                        claim.workspace_name@,
                        claim.role,
                        claim.spec_attrs(),
                        now,
                        (now + self.lifetime) as u64,
                    )
                },
                Err(Error::Anyhow(_)) => find_key_from(
                    self.jwks.keys@,
                    self.jwks.active_kid@,
                    0,
                ) is None,
                Err(_) => false,
            },
    {
        let mut k: usize = 0;
        loop
            invariant_except_break
                0 <= k <= self.jwks.keys@.len(),
                forall|m: int|
                    0 <= m < k ==> (#[trigger] self.jwks.keys@[m].kid@) != self.jwks.active_kid@,
            ensures
                0 <= k < self.jwks.keys@.len(),
                find_key_from(self.jwks.keys@, self.jwks.active_kid@, 0) == Some(k as int),
            decreases self.jwks.keys@.len() - k,
        {
            if k == self.jwks.keys.len() {
                proof {
                    lemma_find_key_frontier(
                        self.jwks.keys@,
                        self.jwks.active_kid@,
                        0,
                        k as int,
                    );
                }
                return Err(Error::Anyhow(String::from_str("active signing key is missing")));
            }
            if crate::path_text::str_eq(
                self.jwks.keys[k].kid.as_str(),
                self.jwks.active_kid.as_str(),
            ) {
                proof {
                    lemma_find_key_frontier(
                        self.jwks.keys@,
                        self.jwks.active_kid@,
                        0,
                        k as int,
                    );
                }
                break ;
            }
            k = k + 1;
        }
        let exp = now + self.lifetime;
        let payload = build_payload(
            self.issuer.as_str(),
            claim.gid.as_str(),
            claim.workspace_name.as_str(),
            claim.role,
            &claim.attributes,
            now,
            exp,
        );
        let mut input: Vec<u8> = Vec::new();
        push_bytes(&mut input, self.jwks.keys[k].secret.as_slice());
        push_bytes(&mut input, payload.as_slice());
        proof {
            assert(input@ =~= self.jwks.keys@[k as int].secret@ + payload@);
        }
        let tag = sha256(input.as_slice());
        Ok(
            CompactJwt {
                kid: self.jwks.active_kid.clone(),
                iss: self.issuer.clone(),
                gid: claim.gid.clone(),
                workspace_name: claim.workspace_name.clone(),
                role: claim.role,
                attributes: clone_attributes(&claim.attributes),
                iat: now,
                exp,
                tag,
            },
        )
    }
}

/// Copies an attribute list pair by pair.
pub fn clone_attributes(v: &Vec<(String, String)>) -> (r: Vec<(String, String)>)
    ensures
        r@ == v@,
{
    let mut r: Vec<(String, String)> = Vec::new();
    let mut i: usize = 0;
    while i < v.len()
        invariant
            0 <= i <= v@.len(),
            r@ =~= v@.take(i as int),
        decreases v@.len() - i,
    {
        r.push((v[i].0.clone(), v[i].1.clone()));
        i = i + 1;
    }
    proof {
        assert(r@ =~= v@);
    }
    r
}

/// Verifies a token against a discovered key set: finds the key the token
/// names, recomputes the tag over the token's fields, checks expiry, and
/// returns the embedded claim exactly.
pub fn verify_token(token: &CompactJwt, jwks: &JwkSet, now: u64) -> (r: Result<NebulaClaim, Error>)
    ensures
        match r {
            Ok(ref c) => spec_verify_ok(jwks.keys@, token, now) && c.gid@ == token.gid@
                && c.workspace_name@ == token.workspace_name@ && c.role == token.role
                && c.spec_attrs() == token.spec_attrs(),
            Err(Error::InvalidSignature) => (match find_key_from(jwks.keys@, token.kid@, 0) {
                Some(i) => token.tag@ != spec_token_tag(
                    jwks.keys@[i].secret@,
                    token.iss@,
                    token.gid@,
                    token.workspace_name@,
                    token.role,
                    token.spec_attrs(),
                    token.iat,
                    token.exp,
                ),
                None => true,
            }),
            Err(Error::Expired) => token.exp <= now && (match find_key_from(
                jwks.keys@,
                token.kid@,
                0,
            ) {
                Some(i) => token.tag@ == spec_token_tag(
                    jwks.keys@[i].secret@,
                    token.iss@,
                    token.gid@,
                    token.workspace_name@,
                    token.role,
                    token.spec_attrs(),
                    token.iat,
                    token.exp,
                ),
                None => false,
            }),
            Err(_) => false,
        },
{
    let mut k: usize = 0;
    loop
        invariant_except_break
            0 <= k <= jwks.keys@.len(),
            forall|m: int| 0 <= m < k ==> (#[trigger] jwks.keys@[m].kid@) != token.kid@,
        ensures
            0 <= k < jwks.keys@.len(),
            find_key_from(jwks.keys@, token.kid@, 0) == Some(k as int),
        decreases jwks.keys@.len() - k,
    {
        if k == jwks.keys.len() {
            proof {
                lemma_find_key_frontier(jwks.keys@, token.kid@, 0, k as int);
            }
            return Err(Error::InvalidSignature);
        }
        if crate::path_text::str_eq(jwks.keys[k].kid.as_str(), token.kid.as_str()) {
            proof {
                lemma_find_key_frontier(jwks.keys@, token.kid@, 0, k as int);
            }
            break ;
        }
        k = k + 1;
    }
    let payload = build_payload(
        token.iss.as_str(),
        token.gid.as_str(),
        token.workspace_name.as_str(),
        token.role,
        &token.attributes,
        token.iat,
        token.exp,
    );
    let mut input: Vec<u8> = Vec::new();
    push_bytes(&mut input, jwks.keys[k].secret.as_slice());
    push_bytes(&mut input, payload.as_slice());
    proof {
        assert(input@ =~= jwks.keys@[k as int].secret@ + payload@);
    }
    let expected = sha256(input.as_slice());
    if !bytes_eq(&token.tag, &expected) {
        return Err(Error::InvalidSignature);
    }
    if token.exp <= now {
        return Err(Error::Expired);
    }
    Ok(
        NebulaClaim {
            gid: token.gid.clone(),
            workspace_name: token.workspace_name.clone(),
            role: token.role,
            attributes: clone_attributes(&token.attributes),
        },
    )
}

/// The signing material and active key id the configuration calls for: a
/// configured set keeps its keys; a missing key id, or a missing set, falls
/// back to a generated default key under the default key id.
pub fn choose_signing_material(
    jwks: Option<JwkSet>,
    kid: Option<String>,
    default_secret: Vec<u8>,
) -> (r: (JwkSet, String))
    ensures
        match jwks {
            Some(ref set) => r.0.keys == set.keys && (match kid {
                Some(ref n) => r.1@ == n@,
                None => r.1@ == "default"@,
            }),
            None => r.0.keys@.len() == 1 && r.0.keys@[0].kid@ == "default"@
                && r.0.keys@[0].secret == default_secret && r.1@ == "default"@,
        },
{
    match (jwks, kid) {
        (Some(set), Some(n)) => (set, n),
        (Some(set), None) => (set, jwk_set_default_key_id()),
        (set_opt, _) => {
            match set_opt {
                Some(set) => (set, jwk_set_default_key_id()),
                None => {
                    let kid0 = jwk_set_default_key_id();
                    let keys: Vec<Jwk> = vec![Jwk { kid: jwk_set_default_key_id(), secret: default_secret }];
                    (JwkSet { keys, active_kid: kid0.clone() }, kid0)
                },
            }
        },
    }
}

} // verus!
