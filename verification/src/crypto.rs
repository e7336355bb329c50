//! Deterministic chat-key derivation and the authenticated cipher used for
//! stored message payloads.
//!
//! The chat key is a function of the *set* of participant ids: the ids are
//! sorted before they are fed to the key-derivation function, so every
//! permutation of the same participants yields the same key
//! (`lemma_derive_key_permutation`). The derivation itself is HKDF-SHA-256
//! keyed by the master key; payload encryption is AES-256-GCM, whose
//! decryption under the key and nonce of an encryption returns the original
//! bytes.
use vstd::prelude::*;

use crate::lex::{lex_le, str_le, lemma_lex_le_total, lemma_lex_le_antisymmetric,
    lemma_lex_le_transitive};
use vstd::relations::sorted_by;
use vstd::utf8::encode_utf8;

verus! {

/// The view of each string in the sequence.
pub open spec fn views_of(s: Seq<String>) -> Seq<Seq<char>> {
    Seq::new(s.len(), |i: int| s[i]@)
}

/// The comparison the participant ids are sorted by.
pub open spec fn lex_leq() -> spec_fn(Seq<char>, Seq<char>) -> bool {
    |a: Seq<char>, b: Seq<char>| lex_le(a, b)
}

/// Two sorted sequences holding the same elements are equal.
pub proof fn lemma_sorted_unique(a: Seq<Seq<char>>, b: Seq<Seq<char>>)
    requires
        sorted_by(a, lex_leq()),
        sorted_by(b, lex_leq()),
        a.to_multiset() == b.to_multiset(),
    ensures
        a == b,
    decreases a.len(),
{
    broadcast use vstd::seq_lib::group_to_multiset_ensures;

    if a.len() == 0 {
        vstd::seq_lib::to_multiset_len(a);
        vstd::seq_lib::to_multiset_len(b);
        assert(a =~= b);
    } else {
        vstd::seq_lib::to_multiset_contains(a, a[0]);
        vstd::seq_lib::to_multiset_contains(b, a[0]);
        vstd::seq_lib::to_multiset_contains(a, b[0]);
        vstd::seq_lib::to_multiset_contains(b, b[0]);
        assert(a.contains(a[0]));
        assert(b.contains(b[0]));
        assert(b.contains(a[0]));
        assert(a.contains(b[0]));
        let ia = choose|i: int| 0 <= i < a.len() && a[i] == b[0];
        let ib = choose|i: int| 0 <= i < b.len() && b[i] == a[0];
        if ia == 0 {
            assert(a[0] == b[0]);
        } else {
            assert(lex_leq()(a[0], a[ia]));
            assert(lex_le(a[0], b[0]));
            if ib == 0 {
                assert(b[0] == a[0]);
            } else {
                assert(lex_leq()(b[0], b[ib]));
                assert(lex_le(b[0], a[0]));
                lemma_lex_le_antisymmetric(a[0], b[0]);
            }
        }
        assert(a[0] == b[0]);
        let ta = a.remove(0);
        let tb = b.remove(0);
        vstd::seq_lib::to_multiset_remove(a, 0);
        vstd::seq_lib::to_multiset_remove(b, 0);
        assert(ta.to_multiset() == tb.to_multiset());
        assert forall|i: int, j: int| 0 <= i < j < ta.len() implies lex_leq()(ta[i], ta[j]) by {
            assert(ta[i] == a[i + 1] && ta[j] == a[j + 1]);
        }
        assert forall|i: int, j: int| 0 <= i < j < tb.len() implies lex_leq()(tb[i], tb[j]) by {
            assert(tb[i] == b[i + 1] && tb[j] == b[j + 1]);
        }
        lemma_sorted_unique(ta, tb);
        assert(a =~= seq![a[0]] + ta);
        assert(b =~= seq![b[0]] + tb);
    }
}

/// Sorts the participant ids into their natural order.
pub fn sort_ids(v: &Vec<String>) -> (r: Vec<String>)
    ensures
        sorted_by(views_of(r@), lex_leq()),
        views_of(r@).to_multiset() == views_of(v@).to_multiset(),
{
    broadcast use vstd::seq_lib::group_to_multiset_ensures;

    let mut out: Vec<String> = Vec::new();
    let mut i: usize = 0;
    proof {
        assert(views_of(v@.subrange(0, 0)) =~= Seq::<Seq<char>>::empty());
        assert(views_of(out@) =~= Seq::<Seq<char>>::empty());
        assert(views_of(out@).to_multiset() =~= views_of(v@.subrange(0, 0)).to_multiset());
    }
    while i < v.len()
        invariant
            0 <= i <= v@.len(),
            sorted_by(views_of(out@), lex_leq()),
            views_of(out@).to_multiset() == views_of(v@.subrange(0, i as int)).to_multiset(),
        decreases v@.len() - i,
    {
        let x = v[i].clone();
        let mut j: usize = 0;
        while j < out.len() && str_le(out[j].as_str(), x.as_str())
            invariant
                0 <= j <= out@.len(),
                forall|k: int| 0 <= k < j ==> lex_le(views_of(out@)[k], x@),
            decreases out@.len() - j,
        {
            j = j + 1;
        }
        let ghost pre = out@;
        out.insert(j, x);
        proof {
            let vo = views_of(out@);
            let vp = views_of(pre);
            assert(vo =~= vp.insert(j as int, x@));
            assert(0 <= j as int <= vp.len());
            vstd::seq_lib::to_multiset_insert(vp, j as int, x@);
            assert(vo[j as int] == x@);
            assert forall|a: int, b: int| 0 <= a < b < vo.len() implies lex_leq()(vo[a], vo[b]) by {
                let ja = j as int;
                if b < ja {
                    assert(vo[a] == vp[a] && vo[b] == vp[b]);
                } else if a > ja {
                    assert(vo[a] == vp[a - 1] && vo[b] == vp[b - 1]);
                } else if a == ja {
                    assert(vo[b] == vp[b - 1]);
                    assert(!lex_le(vp[ja], x@));
                    lemma_lex_le_total(x@, vp[ja]);
                    if b - 1 > ja {
                        assert(lex_leq()(vp[ja], vp[b - 1]));
                        assert(lex_le(vp[ja], vp[b - 1]));
                        lemma_lex_le_transitive(x@, vp[ja], vp[b - 1]);
                    }
                } else if b == ja {
                    assert(vo[a] == vp[a]);
                } else {
                    assert(vo[a] == vp[a]);
                    assert(vo[b] == vp[b - 1]);
                    assert(a < b - 1);
                    assert(lex_leq()(vp[a], vp[b - 1]));
                    assert(lex_le(vp[a], vp[b - 1]));
                }
            }
            let subi = views_of(v@.subrange(0, i as int));
            let sub1 = views_of(v@.subrange(0, i as int + 1));
            assert(sub1 =~= subi.push(v@[i as int]@));
            vstd::seq_lib::to_multiset_build(subi, v@[i as int]@);
            assert(x@ == v@[i as int]@);
            assert(vo.to_multiset() == sub1.to_multiset());
        }
        i = i + 1;
    }
    proof {
        assert(v@.subrange(0, v@.len() as int) =~= v@);
    }
    out
}

/// The participant ids joined into one byte string, the UTF-8 bytes of each
/// id closed by a newline byte: the info input of the key derivation.
pub open spec fn joined_ids(ids: Seq<Seq<char>>) -> Seq<u8>
    decreases ids.len(),
{
    if ids.len() == 0 {
        Seq::empty()
    } else {
        encode_utf8(ids[0]) + seq![10u8] + joined_ids(ids.drop_first())
    }
}

/// Builds the joined byte string of a list of ids.
fn join_ids(v: &Vec<String>) -> (r: Vec<u8>)
    ensures
        r@ == joined_ids(views_of(v@)),
{
    let ghost full = views_of(v@);
    let mut out: Vec<u8> = Vec::new();
    let mut i: usize = 0;
    proof {
        assert(full.skip(0) =~= full);
        assert(joined_ids(full) =~= out@ + joined_ids(full.skip(0)));
    }
    while i < v.len()
        invariant
            0 <= i <= v@.len(),
            full == views_of(v@),
            joined_ids(full) == out@ + joined_ids(full.skip(i as int)),
        decreases v@.len() - i,
    {
        proof {
            assert(full.skip(i as int)[0] == full[i as int]);
            assert(full.skip(i as int).drop_first() =~= full.skip(i as int + 1));
        }
        let ghost pre = out@;
        let mut bytes = v[i].as_str().as_bytes_vec();
        let ghost bv = bytes@;
        out.append(&mut bytes);
        out.push(10u8);
        proof {
            assert(out@ =~= pre + bv + seq![10u8]);
            assert(joined_ids(full.skip(i as int)) =~= encode_utf8(full[i as int]) + seq![10u8]
                + joined_ids(full.skip(i as int + 1)));
            assert(pre + joined_ids(full.skip(i as int)) =~= out@ + joined_ids(
                full.skip(i as int + 1),
            ));
        }
        i = i + 1;
    }
    proof {
        assert(full.skip(v@.len() as int) =~= Seq::<Seq<char>>::empty());
        assert(joined_ids(full) =~= out@);
    }
    out
}

/// What the key-derivation function returns on given keying material and
/// info string; fixed by HKDF-SHA-256.
pub uninterp spec fn kdf_of(ikm: Seq<u8>, info: Seq<u8>) -> Seq<u8>;

/// Relies on hkdf's `Hkdf::<Sha256>::new` and `Hkdf::expand`: HKDF-SHA-256,
/// whose 32-byte output is a function of the keying material and the info
/// string alone. `expand` fails only on an output longer than 255 hash
/// blocks, so a 32-byte request never fails.
#[verifier::external_body]
fn hkdf_sha256(ikm: &Vec<u8>, info: &Vec<u8>) -> (r: Vec<u8>)
    ensures
        r@ == kdf_of(ikm@, info@),
        r@.len() == 32,
{
    let hk = hkdf::Hkdf::<sha2::Sha256>::new(None, ikm.as_slice());
    let mut okm = [0u8; 32];
    hk.expand(info.as_slice(), &mut okm).unwrap();
    okm.to_vec()
}

/// The 32-byte chat key: the key derivation applied to the master key and
/// the *sorted* participant ids.
pub open spec fn spec_derive_chat_key(participants: Seq<Seq<char>>, master: Seq<char>) -> Seq<
    u8,
> {
    kdf_of(encode_utf8(master), joined_ids(participants.sort_by(lex_leq())))
}

/// The participant order is total: the hypotheses vstd's sorting lemmas ask
/// for.
pub proof fn lemma_lex_total_ordering()
    ensures
        vstd::relations::total_ordering(lex_leq()),
{
    assert forall|a: Seq<char>| #[trigger] lex_leq()(a, a) by {
        lemma_lex_le_total(a, a);
    }
    assert forall|a: Seq<char>, b: Seq<char>| #[trigger] lex_leq()(a, b) && #[trigger] lex_leq()(
        b,
        a,
    ) implies a == b by {
        lemma_lex_le_antisymmetric(a, b);
    }
    assert forall|a: Seq<char>, b: Seq<char>, c: Seq<char>|
        #[trigger] lex_leq()(a, b) && #[trigger] lex_leq()(b, c) implies lex_leq()(a, c) by {
        lemma_lex_le_transitive(a, b, c);
    }
    assert forall|a: Seq<char>, b: Seq<char>| #[trigger] lex_leq()(a, b) || #[trigger] lex_leq()(
        b,
        a,
    ) by {
        lemma_lex_le_total(a, b);
    }
}

/// The derived key depends on the participants only through their set: every
/// permutation of the same ids yields the same key.
pub proof fn lemma_derive_key_permutation(
    p1: Seq<Seq<char>>,
    p2: Seq<Seq<char>>,
    master: Seq<char>,
)
    requires
        p1.to_multiset() == p2.to_multiset(),
    ensures
        spec_derive_chat_key(p1, master) == spec_derive_chat_key(p2, master),
{
    lemma_lex_total_ordering();
    p1.lemma_sort_by_ensures(lex_leq());
    p2.lemma_sort_by_ensures(lex_leq());
    lemma_sorted_unique(p1.sort_by(lex_leq()), p2.sort_by(lex_leq()));
}

/// Derives the chat key for a set of participant ids under the master key.
pub fn derive_chat_key(participants: &Vec<String>, master: &str) -> (r: Vec<u8>)
    ensures
        r@ == spec_derive_chat_key(views_of(participants@), master@),
        r@.len() == 32,
{
    let sorted = sort_ids(participants);
    proof {
        lemma_lex_total_ordering();
        views_of(participants@).lemma_sort_by_ensures(lex_leq());
        lemma_sorted_unique(views_of(sorted@), views_of(participants@).sort_by(lex_leq()));
    }
    let info = join_ids(&sorted);
    let ikm = master.as_bytes_vec();
    hkdf_sha256(&ikm, &info)
}

/// The longest plaintext AES-GCM encrypts: the algorithm's own bound.
pub open spec fn aead_plain_max() -> int {
    0xf_ffff_ffe0
}

/// What AES-256-GCM encryption returns on a given key, nonce and plaintext:
/// a function of the three alone.
pub uninterp spec fn aead_seal_of(key: Seq<u8>, nonce: Seq<u8>, p: Seq<u8>) -> Seq<u8>;

/// What AES-256-GCM decryption returns on a given key, nonce and buffer:
/// `None` exactly on a buffer the key and nonce do not authenticate.
pub uninterp spec fn aead_open_of(key: Seq<u8>, nonce: Seq<u8>, c: Seq<u8>) -> Option<Seq<u8>>;

/// Relies on aes-gcm's `Aes256Gcm` through `Aead::encrypt`: deterministic in
/// key, nonce and plaintext, it appends the 16-byte tag, and decrypting the
/// result under the same key and nonce returns the plaintext. It fails only
/// on a plaintext over the GCM length bound, which the precondition
/// excludes.
#[verifier::external_body]
pub fn encrypt_bytes(p: &Vec<u8>, key: &Vec<u8>, nonce: &Vec<u8>) -> (c: Vec<u8>)
    requires
        key@.len() == 32,
        nonce@.len() == 12,
        p@.len() <= aead_plain_max(),
    ensures
        c@ == aead_seal_of(key@, nonce@, p@),
        aead_open_of(key@, nonce@, c@) == Some(p@),
        c@.len() == p@.len() + 16,
{
    let cipher = <aes_gcm::Aes256Gcm as aes_gcm::KeyInit>::new_from_slice(key.as_slice()).unwrap();
    let n = aes_gcm::Nonce::try_from(nonce.as_slice()).unwrap();
    aes_gcm::aead::Aead::encrypt(&cipher, &n, p.as_slice()).unwrap()
}

/// Relies on aes-gcm's `Aes256Gcm` through `Aead::decrypt`: authenticated
/// decryption, a function of key, nonce and buffer, failing exactly when the
/// buffer is not authentic under them.
#[verifier::external_body]
pub fn decrypt_bytes(c: &Vec<u8>, key: &Vec<u8>, nonce: &Vec<u8>) -> (r: Option<Vec<u8>>)
    requires
        key@.len() == 32,
        nonce@.len() == 12,
    ensures
        r is Some <==> aead_open_of(key@, nonce@, c@) is Some,
        r matches Some(p) ==> aead_open_of(key@, nonce@, c@) == Some(p@),
{
    let cipher = <aes_gcm::Aes256Gcm as aes_gcm::KeyInit>::new_from_slice(key.as_slice()).unwrap();
    let n = aes_gcm::Nonce::try_from(nonce.as_slice()).unwrap();
    aes_gcm::aead::Aead::decrypt(&cipher, &n, c.as_slice()).ok()
}

} // verus!
