//! Issuer key state: a store sealed exactly once, by receiving a dealt
//! share or by standalone self-keygen, and the per-user key derivation that
//! reads it.
//!
//! The state is an explicit two-phase machine: the only transition is from
//! empty to sealed.  A second receive is a no-op that reports success; a
//! second self-keygen fails and changes nothing.  Derivation never mutates.

use vstd::prelude::*;

verus! {

use crate::codec::hex_bytes;
use crate::codec::hex_of;
use crate::codec::hex_valid;
use crate::codec::le_val;
use crate::dealer::dealer_tag;
use crate::dealer::DkgPointMessage;
use crate::group::g1_mul;
use crate::group::g1_mul_of;
use crate::group::g1_ok;
use crate::group::g1_tag_gen;
use crate::group::g2_mul;
use crate::group::g2_mul_of;
use crate::group::g2_tag_gen;
use crate::group::G1Elem;
use crate::group::G2Elem;
use crate::scalar::fr_add;
use crate::scalar::fr_from_u64;
use crate::scalar::fr_inverse;
use crate::scalar::fr_is_zero;
use crate::scalar::fr_mul;
use crate::scalar::fr_order;
use crate::scalar::fr_random;
use crate::scalar::inv_mod;
use crate::scalar::lemma_inv_mod_of_witness;
use crate::scalar::Scalar;
use vstd::arithmetic::div_mod::lemma_add_mod_noop;
use vstd::arithmetic::div_mod::lemma_mul_mod_noop_left;
use vstd::arithmetic::div_mod::lemma_small_mod;
use vstd::arithmetic::mul::lemma_mul_is_commutative;

/// Domain-separation tag of the self-keygen G1 generator.
pub open spec fn self_tag_g1() -> Seq<u8> {
    dealer_tag() + seq![45u8, 49u8]
}

/// Domain-separation tag of the self-keygen G2 generator.
pub open spec fn self_tag_g2() -> Seq<u8> {
    dealer_tag() + seq![45u8, 50u8]
}

/// The tag bytes, "syra-generator-1" in ASCII.
pub fn self_tag_g1_bytes() -> (r: Vec<u8>)
    ensures
        r@ == self_tag_g1(),
{
    let mut v = crate::dealer::dealer_tag_bytes();
    v.push(45u8);
    v.push(49u8);
    proof {
        assert(v@ =~= self_tag_g1());
    }
    v
}

/// The tag bytes, "syra-generator-2" in ASCII.
pub fn self_tag_g2_bytes() -> (r: Vec<u8>)
    ensures
        r@ == self_tag_g2(),
{
    let mut v = crate::dealer::dealer_tag_bytes();
    v.push(45u8);
    v.push(50u8);
    proof {
        assert(v@ =~= self_tag_g2());
    }
    v
}

/// Pairing-group description: the two generators every party shares.
pub struct Bp {
    pub g1: G1Elem,
    pub g2: G2Elem,
}

impl Bp {
    pub open spec fn wf(&self) -> bool {
        self.g1.wf() && self.g2.wf()
    }

    pub fn duplicate(&self) -> (r: Bp)
        ensures
            r.g1.b@ == self.g1.b@,
            r.g2.b@ == self.g2.b@,
    {
        Bp { g1: self.g1.duplicate(), g2: self.g2.duplicate() }
    }
}

/// Self-generated issuer key material.
#[allow(non_snake_case)]
pub struct StoredIssuerKeys {
    pub bp: Bp,
    pub isk: Scalar,
    pub ivk_hat: G2Elem,
    pub W: G1Elem,
    pub W_hat: G2Elem,
}

impl StoredIssuerKeys {
    pub open spec fn wf(&self) -> bool {
        self.bp.wf() && self.isk.wf() && self.ivk_hat.wf() && self.W.wf() && self.W_hat.wf()
    }
}

/// Key material sealed by receiving a dealt share.
pub struct ShareRecord {
    pub bp: Bp,
    pub group_public: G1Elem,
    pub share: Scalar,
    pub local_commitment: G1Elem,
    pub commitments: Vec<G1Elem>,
}

impl ShareRecord {
    pub open spec fn wf(&self) -> bool {
        &&& self.bp.wf()
        &&& self.group_public.wf()
        &&& self.share.wf()
        &&& self.local_commitment.wf()
        &&& forall|i: int|
            0 <= i < self.commitments@.len() ==> (#[trigger] self.commitments@[i]).wf()
    }
}

/// The once-sealed issuer key store.
pub enum IssuerState {
    Empty,
    SealedShare(ShareRecord),
    SealedSelf(StoredIssuerKeys),
}

impl IssuerState {
    pub open spec fn wf(&self) -> bool {
        match self {
            IssuerState::Empty => true,
            IssuerState::SealedShare(rec) => rec.wf(),
            IssuerState::SealedSelf(keys) => keys.wf(),
        }
    }

    pub open spec fn sealed(&self) -> bool {
        !(self is Empty)
    }

    /// The G1 generator derivation uses, per sealing path.
    pub open spec fn gen1_bytes(&self) -> Seq<u8> {
        match self {
            IssuerState::Empty => Seq::<u8>::empty(),
            IssuerState::SealedShare(rec) => rec.bp.g1.b@,
            IssuerState::SealedSelf(keys) => keys.bp.g1.b@,
        }
    }

    /// The G2 generator derivation uses, per sealing path.
    pub open spec fn gen2_bytes(&self) -> Seq<u8> {
        match self {
            IssuerState::Empty => Seq::<u8>::empty(),
            IssuerState::SealedShare(rec) => rec.bp.g2.b@,
            IssuerState::SealedSelf(keys) => keys.bp.g2.b@,
        }
    }

    /// The issuer secret derivation combines with the subject scalar: the
    /// local share on the dealt path, the standalone secret otherwise.
    pub open spec fn secret_val(&self) -> int {
        match self {
            IssuerState::Empty => 0,
            IssuerState::SealedShare(rec) => rec.share.val(),
            IssuerState::SealedSelf(keys) => keys.isk.val(),
        }
    }

    /// A snapshot with the same views: equal under every observation the
    /// derivation contract reads, so the expensive curve arithmetic of a
    /// request can run on the copy, outside the lock that guards the
    /// store.
    pub fn duplicate(&self) -> (r: IssuerState)
        requires
            self.wf(),
        ensures
            r.wf(),
            r.sealed() == self.sealed(),
            (r is SealedSelf) == (self is SealedSelf),
            (r is SealedShare) == (self is SealedShare),
            r.gen1_bytes() == self.gen1_bytes(),
            r.gen2_bytes() == self.gen2_bytes(),
            r.secret_val() == self.secret_val(),
            r.bundle_bytes() == self.bundle_bytes(),
    {
        match self {
            IssuerState::Empty => IssuerState::Empty,
            IssuerState::SealedShare(rec) => {
                let mut commitments: Vec<G1Elem> = Vec::new();
                let mut i: usize = 0;
                while i < rec.commitments.len()
                    invariant
                        0 <= i <= rec.commitments@.len(),
                        forall|k: int|
                            0 <= k < rec.commitments@.len() ==> (#[trigger] rec.commitments@[
                            k]).wf(),
                        commitments@.len() == i,
                        forall|k: int|
                            0 <= k < i ==> (#[trigger] commitments@[k]).b@
                                == rec.commitments@[k].b@ && commitments@[k].wf(),
                    decreases rec.commitments@.len() - i,
                {
                    commitments.push(rec.commitments[i].duplicate());
                    i = i + 1;
                }
                IssuerState::SealedShare(
                    ShareRecord {
                        bp: rec.bp.duplicate(),
                        group_public: rec.group_public.duplicate(),
                        share: rec.share.duplicate(),
                        local_commitment: rec.local_commitment.duplicate(),
                        commitments,
                    },
                )
            },
            IssuerState::SealedSelf(keys) => IssuerState::SealedSelf(
                StoredIssuerKeys {
                    bp: keys.bp.duplicate(),
                    isk: keys.isk.duplicate(),
                    ivk_hat: keys.ivk_hat.duplicate(),
                    W: keys.W.duplicate(),
                    W_hat: keys.W_hat.duplicate(),
                },
            ),
        }
    }

    /// The bytes published as the issuer verification bundle: the full
    /// five-element bundle on the self-keygen path; generators and group
    /// public key on the dealt path, where no auxiliary points exist.
    pub open spec fn bundle_bytes(&self) -> Seq<u8> {
        match self {
            IssuerState::Empty => Seq::<u8>::empty(),
            IssuerState::SealedShare(rec) => rec.bp.g1.b@ + rec.bp.g2.b@ + rec.group_public.b@,
            IssuerState::SealedSelf(keys) => ivk_bundle_bytes_of(
                keys.bp.g1.b@,
                keys.bp.g2.b@,
                keys.ivk_hat.b@,
                keys.W.b@,
                keys.W_hat.b@,
            ),
        }
    }
}

/// The published verification-key bundle of a self-keygen issuer.
#[allow(non_snake_case)]
pub struct IvkBundle {
    pub bp: Bp,
    pub ivk_hat: G2Elem,
    pub W: G1Elem,
    pub W_hat: G2Elem,
}

/// Fixed serialization order of the bundle.
pub open spec fn ivk_bundle_bytes_of(
    g1: Seq<u8>,
    g2: Seq<u8>,
    ivk_hat: Seq<u8>,
    w: Seq<u8>,
    w_hat: Seq<u8>,
) -> Seq<u8> {
    g1 + g2 + ivk_hat + w + w_hat
}

impl IvkBundle {
    pub open spec fn wf(&self) -> bool {
        self.bp.wf() && self.ivk_hat.wf() && self.W.wf() && self.W_hat.wf()
    }

    /// Serialize the bundle as g1, g2, ivk_hat, W, W_hat, each in canonical
    /// compressed form, in that fixed order.
    pub fn to_bytes(&self) -> (r: Vec<u8>)
        ensures
            r@ == ivk_bundle_bytes_of(
                self.bp.g1.b@,
                self.bp.g2.b@,
                self.ivk_hat.b@,
                self.W.b@,
                self.W_hat.b@,
            ),
    {
        let mut buf: Vec<u8> = Vec::new();
        crate::codec::append_bytes(&mut buf, &self.bp.g1.b);
        crate::codec::append_bytes(&mut buf, &self.bp.g2.b);
        crate::codec::append_bytes(&mut buf, &self.ivk_hat.b);
        crate::codec::append_bytes(&mut buf, &self.W.b);
        crate::codec::append_bytes(&mut buf, &self.W_hat.b);
        proof {
            assert(Seq::<u8>::empty() + self.bp.g1.b@ =~= self.bp.g1.b@);
        }
        buf
    }

    /// Hex-encode the serialized bundle.
    pub fn to_hex_string(&self) -> (r: String)
        ensures
            r@ == hex_of(
                ivk_bundle_bytes_of(
                    self.bp.g1.b@,
                    self.bp.g2.b@,
                    self.ivk_hat.b@,
                    self.W.b@,
                    self.W_hat.b@,
                ),
            ),
    {
        let bytes = self.to_bytes();
        crate::codec::hex_encode(&bytes)
    }
}

/// Errors during standalone key generation.
#[derive(Debug)]
pub enum KeygenError {
    AlreadyGenerated,
}

/// Generate the issuer's standalone key material and seal it; exactly one
/// call can ever succeed.
pub fn generate_issuer_keys(state: &mut IssuerState) -> (r: Result<IvkBundle, KeygenError>)
    requires
        old(state).wf(),
    ensures
        final(state).wf(),
        old(state).sealed() ==> r is Err && *final(state) == *old(state) && (r matches Err(e)
            && e is AlreadyGenerated),
        !old(state).sealed() ==> r is Ok && (*final(state)) is SealedSelf,
        !old(state).sealed() ==> ((*final(state)) matches IssuerState::SealedSelf(m) && {
            &&& m.bp.g1.b@ == g1_tag_gen(self_tag_g1())
            &&& m.bp.g2.b@ == g2_tag_gen(self_tag_g2())
            &&& m.ivk_hat.b@ == g2_mul_of(m.bp.g2.b@, m.isk.val())
            &&& exists|k: int| m.W.b@ == #[trigger] g1_mul_of(m.bp.g1.b@, k)
            &&& exists|k: int| m.W_hat.b@ == #[trigger] g2_mul_of(m.bp.g2.b@, k)
            &&& (r matches Ok(b) && b.bp.g1.b@ == m.bp.g1.b@ && b.bp.g2.b@ == m.bp.g2.b@
                && b.ivk_hat.b@ == m.ivk_hat.b@ && b.W.b@ == m.W.b@ && b.W_hat.b@ == m.W_hat.b@)
        }),
{
    match state {
        IssuerState::Empty => {},
        _ => {
            return Err(KeygenError::AlreadyGenerated);
        },
    }
    let tag1 = self_tag_g1_bytes();
    let tag2 = self_tag_g2_bytes();
    let g1 = crate::group::g1_from_tag(tag1.as_slice());
    let g2 = crate::group::g2_from_tag(tag2.as_slice());
    let isk = fr_random();
    let r1 = fr_random();
    let r2 = fr_random();
    let w = g1_mul(&g1, &r1);
    let w_hat = g2_mul(&g2, &r2);
    let ivk_hat = g2_mul(&g2, &isk);
    let bundle = IvkBundle {
        bp: Bp { g1: g1.duplicate(), g2: g2.duplicate() },
        ivk_hat: ivk_hat.duplicate(),
        W: w.duplicate(),
        W_hat: w_hat.duplicate(),
    };
    *state = IssuerState::SealedSelf(
        StoredIssuerKeys { bp: Bp { g1, g2 }, isk, ivk_hat, W: w, W_hat: w_hat },
    );
    Ok(bundle)
}

/// Errors while decoding a dealt share message.
#[derive(Debug)]
pub enum ReceiveShareError {
    MalformedGroupKey,
    MalformedShare,
    MalformedCommitment,
}

/// A hex string that decodes to a valid compressed G1 point.
pub open spec fn g1_hex_valid(s: Seq<char>) -> bool {
    hex_valid(s) && hex_bytes(s).len() == 48 && g1_ok(hex_bytes(s))
}

/// The group-key and share parts of a dealt message decode.
pub open spec fn share_message_group_key_valid(msg: DkgPointMessage) -> bool {
    g1_hex_valid(msg.group_public_hex@)
}

pub open spec fn share_message_share_valid(msg: DkgPointMessage) -> bool {
    hex_valid(msg.share_hex@) && hex_bytes(msg.share_hex@).len() == 32 && le_val(
        hex_bytes(msg.share_hex@),
    ) < fr_order()
}

pub open spec fn share_message_commitments_valid(msg: DkgPointMessage) -> bool {
    forall|i: int|
        0 <= i < msg.commitments_hex@.len() ==> g1_hex_valid(#[trigger] msg.commitments_hex@[i]@)
}

/// Every part of a dealt message decodes.
pub open spec fn share_message_valid(msg: DkgPointMessage) -> bool {
    share_message_group_key_valid(msg) && share_message_share_valid(msg)
        && share_message_commitments_valid(msg)
}

/// What a seal by receipt stores, pinned to the message: the decoded group
/// key, share and commitment list, the recomputed generators, and the local
/// commitment recomputed as generator^share.
pub open spec fn sealed_from_message(rec: ShareRecord, msg: DkgPointMessage) -> bool {
    &&& rec.bp.g1.b@ == g1_tag_gen(dealer_tag())
    &&& rec.bp.g2.b@ == g2_tag_gen(self_tag_g2())
    &&& rec.group_public.b@ == hex_bytes(msg.group_public_hex@)
    &&& rec.share.b@ == hex_bytes(msg.share_hex@)
    &&& rec.local_commitment.b@ == g1_mul_of(rec.bp.g1.b@, rec.share.val())
    &&& rec.commitments@.len() == msg.commitments_hex@.len()
    &&& forall|i: int|
        0 <= i < rec.commitments@.len() ==> (#[trigger] rec.commitments@[i]).b@ == hex_bytes(
            msg.commitments_hex@[i]@,
        )
}

/// Receive a dealt share.  On the first valid message the state seals; a
/// receipt while sealed is an acknowledged no-op, whatever the message
/// holds, so dealer retries are tolerated by design.
pub fn receive_share(state: &mut IssuerState, msg: &DkgPointMessage) -> (r: Result<
    (),
    ReceiveShareError,
>)
    requires
        old(state).wf(),
    ensures
        final(state).wf(),
        old(state).sealed() ==> r is Ok && *final(state) == *old(state),
        !old(state).sealed() ==> ((r is Ok) <==> share_message_valid(*msg)),
        !old(state).sealed() && share_message_valid(*msg) ==> ((*final(state))
            matches IssuerState::SealedShare(rec) && sealed_from_message(rec, *msg)),
        !old(state).sealed() && !share_message_valid(*msg) ==> *final(state) == *old(state),
        !old(state).sealed() && !share_message_group_key_valid(*msg) ==> (r matches Err(e)
            && e is MalformedGroupKey),
        !old(state).sealed() && share_message_group_key_valid(*msg)
            && !share_message_share_valid(*msg) ==> (r matches Err(e) && e is MalformedShare),
        !old(state).sealed() && share_message_group_key_valid(*msg) && share_message_share_valid(
            *msg,
        ) && !share_message_commitments_valid(*msg) ==> (r matches Err(e)
            && e is MalformedCommitment),
{
    match state {
        IssuerState::Empty => {},
        _ => {
            return Ok(());
        },
    }
    // Group public key.
    let a_bytes = match crate::codec::hex_decode(msg.group_public_hex.as_str()) {
        Some(v) => v,
        None => {
            return Err(ReceiveShareError::MalformedGroupKey);
        },
    };
    if a_bytes.len() != 48 {
        return Err(ReceiveShareError::MalformedGroupKey);
    }
    let group_public = match crate::group::g1_decode(&a_bytes) {
        Some(p) => p,
        None => {
            return Err(ReceiveShareError::MalformedGroupKey);
        },
    };
    // Share scalar.
    let share_bytes = match crate::codec::hex_decode(msg.share_hex.as_str()) {
        Some(v) => v,
        None => {
            return Err(ReceiveShareError::MalformedShare);
        },
    };
    if share_bytes.len() != 32 {
        return Err(ReceiveShareError::MalformedShare);
    }
    let share = match crate::scalar::fr_decode(&share_bytes) {
        Some(s) => s,
        None => {
            return Err(ReceiveShareError::MalformedShare);
        },
    };
    // Commitment list.
    let mut commitments: Vec<G1Elem> = Vec::new();
    let mut i: usize = 0;
    while i < msg.commitments_hex.len()
        invariant
            0 <= i <= msg.commitments_hex@.len(),
            share_message_group_key_valid(*msg),
            share_message_share_valid(*msg),
            commitments@.len() == i,
            forall|k: int| 0 <= k < i ==> g1_hex_valid(#[trigger] msg.commitments_hex@[k]@),
            forall|k: int|
                0 <= k < i ==> (#[trigger] commitments@[k]).b@ == hex_bytes(
                    msg.commitments_hex@[k]@,
                ) && commitments@[k].wf(),
            *state == *old(state),
            old(state).wf(),
            !old(state).sealed(),
        decreases msg.commitments_hex@.len() - i,
    {
        let c_bytes = match crate::codec::hex_decode(msg.commitments_hex[i].as_str()) {
            Some(v) => v,
            None => {
                return Err(ReceiveShareError::MalformedCommitment);
            },
        };
        if c_bytes.len() != 48 {
            return Err(ReceiveShareError::MalformedCommitment);
        }
        let c = match crate::group::g1_decode(&c_bytes) {
            Some(p) => p,
            None => {
                return Err(ReceiveShareError::MalformedCommitment);
            },
        };
        commitments.push(c);
        i = i + 1;
    }
    // Recompute the generators and the local commitment, then seal.
    let g1 = crate::dealer::dealer_generator();
    let tag2 = self_tag_g2_bytes();
    let g2 = crate::group::g2_from_tag(tag2.as_slice());
    let local_commitment = g1_mul(&g1, &share);
    *state = IssuerState::SealedShare(
        ShareRecord { bp: Bp { g1, g2 }, group_public, share, local_commitment, commitments },
    );
    Ok(())
}

// ------------------------------------------------------------------
// Subject scalar and user-key derivation.
// ------------------------------------------------------------------

/// Base-256 accumulation of a subject's bytes, most significant byte first.
pub open spec fn subject_acc(b: Seq<u8>) -> int
    decreases b.len(),
{
    if b.len() == 0 {
        0
    } else {
        256 * subject_acc(b.drop_last()) + b.last()
    }
}

/// The derived identity scalar: the accumulation reduced into the field,
/// remapped to one when it lands exactly on zero.
pub open spec fn subject_scalar(b: Seq<u8>) -> int {
    let a = subject_acc(b) % fr_order();
    if a == 0 {
        1
    } else {
        a
    }
}

/// Deterministically derive the identity scalar of a subject; never zero.
pub fn s_from_sub(sub: &[u8]) -> (r: Scalar)
    ensures
        r.wf(),
        r.val() == subject_scalar(sub@),
        r.val() != 0,
{
    let c256 = fr_from_u64(256);
    let mut acc = fr_from_u64(0);
    let mut i: usize = 0;
    proof {
        assert(sub@.take(0) =~= Seq::<u8>::empty());
        lemma_small_mod(0nat, fr_order() as nat);
    }
    while i < sub.len()
        invariant
            0 <= i <= sub@.len(),
            c256.wf(),
            c256.val() == 256,
            acc.wf(),
            acc.val() == subject_acc(sub@.take(i as int)) % fr_order(),
        decreases sub@.len() - i,
    {
        let prod = fr_mul(&acc, &c256);
        let byte_scalar = fr_from_u64(sub[i] as u64);
        let acc2 = fr_add(&prod, &byte_scalar);
        proof {
            let r = fr_order();
            let a = subject_acc(sub@.take(i as int));
            let b = sub@[i as int] as int;
            assert(sub@.take(i + 1).drop_last() =~= sub@.take(i as int));
            assert(sub@.take(i + 1).last() == sub@[i as int]);
            assert(subject_acc(sub@.take(i + 1)) == 256 * a + b);
            assert(prod.val() == ((a % r) * 256) % r);
            lemma_mul_mod_noop_left(a, 256, r);
            assert(prod.val() == (a * 256) % r);
            lemma_small_mod(b as nat, r as nat);
            lemma_add_mod_noop(a * 256, b, r);
            assert(acc2.val() == ((a * 256) % r + b % r) % r);
            assert(acc2.val() == (a * 256 + b) % r);
            lemma_mul_is_commutative(a, 256);
        }
        acc = acc2;
        i = i + 1;
    }
    proof {
        assert(sub@.take(sub@.len() as int) =~= sub@);
    }
    if fr_is_zero(&acc) {
        fr_from_u64(1)
    } else {
        acc
    }
}

/// The two error outcomes of the key service interface.
#[derive(Debug)]
pub enum KeyServiceError {
    NotReady,
    Unauthorized,
}

/// What a user-key request returns on success.
pub struct GenerateKeyResponse {
    pub ivk: String,
    pub usk: String,
    pub usk_hat: String,
}

/// The exact response derivation owes for a sealed state and subject whose
/// combined scalar is invertible.
pub open spec fn derived_response(st: IssuerState, sub: Seq<u8>, resp: GenerateKeyResponse) -> bool {
    let a = (subject_scalar(sub) + st.secret_val()) % fr_order();
    let inv = inv_mod(a, fr_order());
    &&& resp.ivk@ == hex_of(st.bundle_bytes())
    &&& resp.usk@ == hex_of(g1_mul_of(st.gen1_bytes(), inv))
    &&& resp.usk_hat@ == hex_of(g2_mul_of(st.gen2_bytes(), inv))
}

/// Derive the user's credential key pair from sealed issuer state and a
/// verified subject.  Reads only; two calls with the same inputs return
/// bit-identical responses, since every field is pinned to the state and
/// subject alone.
pub fn derive_user_key(state: &IssuerState, sub: &[u8]) -> (r: Result<
    GenerateKeyResponse,
    KeyServiceError,
>)
    requires
        state.wf(),
    ensures
        !state.sealed() ==> (r matches Err(e) && e is NotReady),
        state.sealed() && (subject_scalar(sub@) + state.secret_val()) % fr_order() == 0 ==> (r
            matches Err(e) && e is Unauthorized),
        state.sealed() && (subject_scalar(sub@) + state.secret_val()) % fr_order() != 0 ==> (r
            matches Ok(resp) && derived_response(*state, sub@, resp)),
        r is Ok ==> (inv_mod(
            (subject_scalar(sub@) + state.secret_val()) % fr_order(),
            fr_order(),
        ) * ((subject_scalar(sub@) + state.secret_val()) % fr_order())) % fr_order() == 1,
        r matches Ok(resp) ==> resp.usk@.len() == 96 && resp.usk_hat@.len() == 192,
        r matches Ok(resp) ==> (state is SealedSelf ==> resp.ivk@.len() == 768) && (state
            is SealedShare ==> resp.ivk@.len() == 384),
{
    let (g1, g2, secret): (&G1Elem, &G2Elem, &Scalar) = match state {
        IssuerState::Empty => {
            return Err(KeyServiceError::NotReady);
        },
        IssuerState::SealedShare(rec) => (&rec.bp.g1, &rec.bp.g2, &rec.share),
        IssuerState::SealedSelf(keys) => (&keys.bp.g1, &keys.bp.g2, &keys.isk),
    };
    let s = s_from_sub(sub);
    let sum = fr_add(&s, secret);
    let inv = match fr_inverse(&sum) {
        Some(v) => v,
        None => {
            return Err(KeyServiceError::Unauthorized);
        },
    };
    proof {
        crate::codec::lemma_le_val_bound(inv.b@);
        lemma_inv_mod_of_witness(sum.val(), inv.val(), fr_order());
    }
    let usk_pt = g1_mul(g1, &inv);
    let usk_hat_pt = g2_mul(g2, &inv);
    let ivk_hex = match state {
        IssuerState::Empty => {
            return Err(KeyServiceError::NotReady);
        },
        IssuerState::SealedShare(rec) => {
            let mut buf: Vec<u8> = Vec::new();
            crate::codec::append_bytes(&mut buf, &rec.bp.g1.b);
            crate::codec::append_bytes(&mut buf, &rec.bp.g2.b);
            crate::codec::append_bytes(&mut buf, &rec.group_public.b);
            proof {
                assert(Seq::<u8>::empty() + rec.bp.g1.b@ =~= rec.bp.g1.b@);
            }
            let h = crate::codec::hex_encode(&buf);
            proof {
                crate::codec::lemma_hex_of_len(buf@);
                assert(h@.len() == 384);
            }
            h
        },
        IssuerState::SealedSelf(keys) => {
            let bundle = IvkBundle {
                bp: keys.bp.duplicate(),
                ivk_hat: keys.ivk_hat.duplicate(),
                W: keys.W.duplicate(),
                W_hat: keys.W_hat.duplicate(),
            };
            let h = bundle.to_hex_string();
            proof {
                crate::codec::lemma_hex_of_len(
                    ivk_bundle_bytes_of(
                        bundle.bp.g1.b@,
                        bundle.bp.g2.b@,
                        bundle.ivk_hat.b@,
                        bundle.W.b@,
                        bundle.W_hat.b@,
                    ),
                );
                assert(h@.len() == 768);
            }
            h
        },
    };
    proof {
        crate::codec::lemma_hex_of_len(usk_pt.b@);
        crate::codec::lemma_hex_of_len(usk_hat_pt.b@);
    }
    Ok(
        GenerateKeyResponse {
            ivk: ivk_hex,
            usk: crate::codec::hex_encode(&usk_pt.b),
            usk_hat: crate::codec::hex_encode(&usk_hat_pt.b),
        },
    )
}

/// Derivation determinism, as a law: any two responses that derivation's
/// contract allows for the same sealed state and subject are bit-identical.
pub proof fn lemma_derivation_deterministic(
    st: IssuerState,
    sub: Seq<u8>,
    r1: GenerateKeyResponse,
    r2: GenerateKeyResponse,
)
    requires
        derived_response(st, sub, r1),
        derived_response(st, sub, r2),
    ensures
        r1.ivk@ == r2.ivk@,
        r1.usk@ == r2.usk@,
        r1.usk_hat@ == r2.usk_hat@,
{
}

} // verus!
