//! The key pairs that may sign, found by their public keys.

use vstd::prelude::*;
use std::sync::Arc;
use solana_sdk::signature::Keypair;
use solana_sdk::transaction::Transaction;
use crate::keypair::{
    generate_keypair, keypair_pubkey, keypair_signature, pubkey_of, share_keypair, sign_with,
    Signature, SigningError,
};
use crate::pubkey::Pubkey;
use crate::transaction::{
    carried_message_data, carried_signatures, message_data_bytes, UnsignedTransaction,
};

verus! {

#[derive(Debug)]
struct SignerEntry {
    key: Pubkey,
    signer: Arc<Keypair>,
}

/// The keys of the entries, in order.
spec fn entry_keys(entries: Seq<SignerEntry>) -> Seq<Pubkey> {
    Seq::new(entries.len(), |i: int| entries[i].key)
}

/// The entries as a map from key to key pair; a later entry would win over an
/// earlier one with the same key.
spec fn entries_map(entries: Seq<SignerEntry>) -> Map<Pubkey, Arc<Keypair>>
    decreases entries.len(),
{
    if entries.len() == 0 {
        Map::empty()
    } else {
        entries_map(entries.drop_last()).insert(entries.last().key, entries.last().signer)
    }
}

/// No key occurs twice, and each entry is filed under the key of its key pair.
spec fn entries_valid(entries: Seq<SignerEntry>) -> bool {
    &&& entry_keys(entries).no_duplicates()
    &&& forall|i: int|
        0 <= i < entries.len() ==> keypair_pubkey(*(#[trigger] entries[i]).signer) == entries[i].key
}

proof fn lemma_entries_dom(entries: Seq<SignerEntry>, key: Pubkey)
    ensures
        entries_map(entries).dom().contains(key) <==> exists|i: int|
            0 <= i < entries.len() && (#[trigger] entries[i]).key == key,
    decreases entries.len(),
{
    if entries.len() > 0 {
        let shorter = entries.drop_last();
        lemma_entries_dom(shorter, key);
        if exists|i: int| 0 <= i < shorter.len() && (#[trigger] shorter[i]).key == key {
            let i = choose|i: int| 0 <= i < shorter.len() && (#[trigger] shorter[i]).key == key;
            assert(entries[i].key == key);
        }
        if exists|i: int| 0 <= i < entries.len() && (#[trigger] entries[i]).key == key {
            let i = choose|i: int| 0 <= i < entries.len() && (#[trigger] entries[i]).key == key;
            if i < entries.len() - 1 {
                assert(shorter[i].key == key);
            }
        }
    }
}

proof fn lemma_entries_value(entries: Seq<SignerEntry>, i: int)
    requires
        entry_keys(entries).no_duplicates(),
        0 <= i < entries.len(),
    ensures
        entries_map(entries).dom().contains(entries[i].key),
        entries_map(entries)[entries[i].key] == entries[i].signer,
    decreases entries.len(),
{
    let shorter = entries.drop_last();
    let last = entries.len() - 1;
    if i < last {
        assert(entry_keys(shorter) =~= entry_keys(entries).drop_last());
        lemma_entries_value(shorter, i);
        assert(entry_keys(entries)[i] == entries[i].key);
        assert(entry_keys(entries)[last] == entries[last].key);
        assert(entries[i].key != entries[last].key);
    }
}

proof fn lemma_entries_len(entries: Seq<SignerEntry>)
    requires
        entry_keys(entries).no_duplicates(),
    ensures
        entries_map(entries).dom().finite(),
        entries_map(entries).dom().len() == entries.len(),
    decreases entries.len(),
{
    if entries.len() > 0 {
        let shorter = entries.drop_last();
        let last = entries.len() - 1;
        assert(entry_keys(shorter) =~= entry_keys(entries).drop_last());
        lemma_entries_len(shorter);
        lemma_entries_dom(shorter, entries[last].key);
        if exists|i: int| 0 <= i < shorter.len() && (#[trigger] shorter[i]).key == entries[last].key {
            let i = choose|i: int|
                0 <= i < shorter.len() && (#[trigger] shorter[i]).key == entries[last].key;
            assert(entry_keys(entries)[i] == entries[i].key);
            assert(entry_keys(entries)[last] == entries[last].key);
        }
    }
}

proof fn lemma_entries_replace(entries: Seq<SignerEntry>, i: int, signer: Arc<Keypair>)
    requires
        entry_keys(entries).no_duplicates(),
        0 <= i < entries.len(),
    ensures
        entries_map(entries.update(i, SignerEntry { key: entries[i].key, signer }))
            == entries_map(entries).insert(entries[i].key, signer),
        entry_keys(entries.update(i, SignerEntry { key: entries[i].key, signer })) == entry_keys(
            entries,
        ),
    decreases entries.len(),
{
    let replaced = entries.update(i, SignerEntry { key: entries[i].key, signer });
    let shorter = entries.drop_last();
    let last = entries.len() - 1;
    assert(entry_keys(replaced) =~= entry_keys(entries));
    if i < last {
        assert(entry_keys(shorter) =~= entry_keys(entries).drop_last());
        lemma_entries_replace(shorter, i, signer);
        assert(replaced.drop_last() =~= shorter.update(i, SignerEntry { key: entries[i].key, signer }));
        assert(entry_keys(entries)[i] == entries[i].key);
        assert(entry_keys(entries)[last] == entries[last].key);
        assert(entries_map(replaced) =~= entries_map(entries).insert(entries[i].key, signer));
    } else {
        assert(replaced.drop_last() =~= shorter);
        assert(entries_map(replaced) =~= entries_map(entries).insert(entries[i].key, signer));
    }
}

/// The key pairs that may sign, each filed under its public key.
#[derive(Debug)]
pub struct SignatureBuilder {
    entries: Vec<SignerEntry>,
}

impl View for SignatureBuilder {
    type V = Map<Pubkey, Arc<Keypair>>;

    closed spec fn view(&self) -> Map<Pubkey, Arc<Keypair>> {
        entries_map(self.entries@)
    }
}

impl SignatureBuilder {
    #[verifier::type_invariant]
    closed spec fn wf(&self) -> bool {
        entries_valid(self.entries@)
    }

    /// The order in which the keys are listed and the signatures are given.
    pub closed spec fn key_order(&self) -> Seq<Pubkey> {
        entry_keys(self.entries@)
    }

    /// Every held key pair is filed under its own public key; the keys are listed
    /// once each.
    pub open spec fn consistent(&self) -> bool {
        &&& self@.dom().finite()
        &&& self.key_order().no_duplicates()
        &&& self.key_order().to_set() == self@.dom()
        &&& forall|key: Pubkey| #[trigger]
            self@.dom().contains(key) ==> keypair_pubkey(*self@[key]) == key
    }

    /// What the invariant of the type says of the map of signers.
    proof fn lemma_consistent(&self)
        requires
            self.wf(),
        ensures
            self.consistent(),
    {
        let entries = self.entries@;
        lemma_entries_len(entries);
        assert forall|key: Pubkey| entry_keys(entries).to_set().contains(key)
            == self@.dom().contains(key) by {
            lemma_entries_dom(entries, key);
            if entry_keys(entries).contains(key) {
                let i = choose|i: int| 0 <= i < entries.len() && entry_keys(entries)[i] == key;
                assert(entries[i].key == key);
            }
            if exists|i: int| 0 <= i < entries.len() && (#[trigger] entries[i]).key == key {
                let i = choose|i: int| 0 <= i < entries.len() && (#[trigger] entries[i]).key == key;
                assert(entry_keys(entries)[i] == key);
            }
        }
        assert(entry_keys(entries).to_set() =~= self@.dom());
        assert forall|key: Pubkey| #[trigger] self@.dom().contains(key) implies keypair_pubkey(
            *self@[key],
        ) == key by {
            lemma_entries_dom(entries, key);
            let i = choose|i: int| 0 <= i < entries.len() && (#[trigger] entries[i]).key == key;
            lemma_entries_value(entries, i);
        }
    }

    /// A registry without signers.
    pub fn new() -> (registry: Self)
        ensures
            registry@ == Map::<Pubkey, Arc<Keypair>>::empty(),
            registry.consistent(),
    {
        let registry = SignatureBuilder { entries: Vec::new() };
        proof {
            registry.lemma_consistent();
        }
        registry
    }

    fn position(&self, key: &Pubkey) -> (found: Option<usize>)
        ensures
            match found {
                Some(i) => i < self.entries@.len() && self.entries@[i as int].key == *key,
                None => !self@.dom().contains(*key),
            },
    {
        let mut i: usize = 0;
        while i < self.entries.len()
            invariant
                i <= self.entries.len(),
                forall|j: int| 0 <= j < i ==> (#[trigger] self.entries@[j]).key != *key,
            decreases self.entries.len() - i,
        {
            if self.entries[i].key.same_key(key) {
                return Some(i);
            }
            i += 1;
        }
        proof {
            lemma_entries_dom(self.entries@, *key);
        }
        None
    }

    /// Files `signer` under its public key, in place of any key pair that was
    /// filed there, and returns that key.
    pub fn add_signer(&mut self, signer: Arc<Keypair>) -> (key: Pubkey)
        ensures
            key == keypair_pubkey(*signer),
            final(self)@ == old(self)@.insert(key, signer),
            final(self).consistent(),
    {
        proof {
            use_type_invariant(&*self);
        }
        let key = pubkey_of(&signer);
        let found = self.position(&key);
        let mut entries: Vec<SignerEntry> = Vec::new();
        std::mem::swap(&mut entries, &mut self.entries);
        let ghost before = entries@;
        match found {
            Some(i) => {
                proof {
                    lemma_entries_replace(before, i as int, signer);
                }
                entries.set(i, SignerEntry { key, signer });
            },
            None => {
                proof {
                    lemma_entries_dom(before, key);
                    assert(entry_keys(before.push(SignerEntry { key, signer })) =~= entry_keys(
                        before,
                    ).push(key));
                    assert forall|j: int| 0 <= j < before.len() implies entry_keys(before)[j]
                        != key by {
                        assert(before[j].key == entry_keys(before)[j]);
                    }
                    assert(before.push(SignerEntry { key, signer }).drop_last() =~= before);
                }
                entries.push(SignerEntry { key, signer });
            },
        }
        self.entries = entries;
        proof {
            self.lemma_consistent();
        }
        key
    }

    /// Generates a key pair, files it, and returns its public key.
    pub fn new_signer(&mut self) -> (key: Pubkey)
        ensures
            final(self)@.dom() == old(self)@.dom().insert(key),
            keypair_pubkey(*final(self)@[key]) == key,
            forall|other: Pubkey|
                other != key && old(self)@.dom().contains(other) ==> final(self)@[other] == old(self)@[other],
            final(self).consistent(),
    {
        let keypair = Arc::new(generate_keypair());
        self.add_signer(keypair)
    }

    pub fn contains_key(&self, key: &Pubkey) -> (held: bool)
        ensures
            held == self@.dom().contains(*key),
    {
        proof {
            lemma_entries_dom(self.entries@, *key);
        }
        self.position(key).is_some()
    }

    /// The key pair filed under `key`.
    pub fn get_signer(&self, key: &Pubkey) -> (signer: Option<Arc<Keypair>>)
        ensures
            signer == (if self@.dom().contains(*key) {
                Some(self@[*key])
            } else {
                None
            }),
            self.consistent(),
    {
        proof {
            use_type_invariant(self);
            self.lemma_consistent();
            lemma_entries_dom(self.entries@, *key);
        }
        match self.position(key) {
            Some(i) => {
                proof {
                    lemma_entries_value(self.entries@, i as int);
                }
                Some(share_keypair(&self.entries[i].signer))
            },
            None => None,
        }
    }

    /// The held key pairs, each once, in the order of `pubkeys`.
    pub fn signers(&self) -> (signers: Vec<Arc<Keypair>>)
        ensures
            signers@.len() == self.key_order().len(),
            forall|i: int|
                0 <= i < signers@.len() ==> self@.dom().contains(self.key_order()[i])
                    && (#[trigger] signers@[i]) == self@[self.key_order()[i]],
            self.consistent(),
    {
        proof {
            use_type_invariant(self);
            self.lemma_consistent();
        }
        let mut list: Vec<Arc<Keypair>> = Vec::new();
        let mut i: usize = 0;
        while i < self.entries.len()
            invariant
                i <= self.entries.len(),
                self.wf(),
                list@.len() == i,
                forall|j: int| 0 <= j < i ==> self@.dom().contains(#[trigger] self.key_order()[j]),
                forall|j: int| 0 <= j < i ==> (#[trigger] list@[j]) == self@[self.key_order()[j]],
            decreases self.entries.len() - i,
        {
            proof {
                lemma_entries_value(self.entries@, i as int);
                assert(self.key_order()[i as int] == self.entries@[i as int].key);
            }
            list.push(share_keypair(&self.entries[i].signer));
            i += 1;
        }
        list
    }

    /// Gives up the registry for its key pairs, each once, in the order of `pubkeys`.
    pub fn into_signers(self) -> (signers: Vec<Arc<Keypair>>)
        ensures
            signers@.len() == self.key_order().len(),
            forall|i: int|
                0 <= i < signers@.len() ==> self@.dom().contains(self.key_order()[i])
                    && (#[trigger] signers@[i]) == self@[self.key_order()[i]],
            self.consistent(),
    {
        self.signers()
    }

    /// The public keys under which key pairs are filed, each once.
    pub fn pubkeys(&self) -> (keys: Vec<Pubkey>)
        ensures
            keys@ == self.key_order(),
            self.consistent(),
    {
        proof {
            use_type_invariant(self);
            self.lemma_consistent();
        }
        let mut keys: Vec<Pubkey> = Vec::new();
        let mut i: usize = 0;
        while i < self.entries.len()
            invariant
                i <= self.entries.len(),
                keys@.len() == i,
                forall|j: int| 0 <= j < i ==> keys@[j] == (#[trigger] self.entries@[j]).key,
            decreases self.entries.len() - i,
        {
            keys.push(self.entries[i].key);
            i += 1;
        }
        assert(keys@ =~= self.key_order());
        keys
    }

    /// Key pairs sign without asking anyone.
    pub fn is_interactive(&self) -> (interactive: bool)
        ensures
            !interactive,
    {
        false
    }

    /// The signature of every held key pair over `message`, in the order of
    /// `pubkeys`.
    pub fn sign_message(&self, message: &[u8]) -> (signatures: Vec<Signature>)
        ensures
            signatures@.len() == self.key_order().len(),
            forall|i: int|
                0 <= i < signatures@.len() ==> self@.dom().contains(self.key_order()[i])
                    && (#[trigger] signatures@[i]).bytes@ == keypair_signature(
                    *self@[self.key_order()[i]],
                    message@,
                ),
            self.consistent(),
    {
        proof {
            use_type_invariant(self);
            self.lemma_consistent();
        }
        let mut signatures: Vec<Signature> = Vec::new();
        let mut i: usize = 0;
        while i < self.entries.len()
            invariant
                i <= self.entries.len(),
                self.wf(),
                self.consistent(),
                signatures@.len() == i,
                forall|j: int|
                    0 <= j < i ==> self@.dom().contains(self.key_order()[j])
                        && (#[trigger] signatures@[j]).bytes@ == keypair_signature(
                        *self@[self.key_order()[j]],
                        message@,
                    ),
            decreases self.entries.len() - i,
        {
            proof {
                lemma_entries_value(self.entries@, i as int);
                assert(self.key_order()[i as int] == self.entries@[i as int].key);
            }
            signatures.push(sign_with(&self.entries[i].signer, message));
            i += 1;
        }
        signatures
    }
}

/// Whether a key pair is held for each of the first `n` of `keys`.
pub open spec fn holds_all(registry: Map<Pubkey, Arc<Keypair>>, keys: Seq<Pubkey>, n: int) -> bool {
    forall|i: int| 0 <= i < n ==> registry.dom().contains(#[trigger] keys[i])
}

/// The outcome of looking up `keys` in `registry`: the key pairs in the order of
/// the keys, or the first key for which none is held.
pub open spec fn signers_for(registry: Map<Pubkey, Arc<Keypair>>, keys: Seq<Pubkey>) -> Result<
    Seq<Arc<Keypair>>,
    Pubkey,
> {
    if holds_all(registry, keys, keys.len() as int) {
        Ok(Seq::new(keys.len(), |i: int| registry[keys[i]]))
    } else {
        Err(keys[first_missing(registry, keys)])
    }
}

/// The position of the first of `keys` for which no key pair is held.
pub open spec fn first_missing(registry: Map<Pubkey, Arc<Keypair>>, keys: Seq<Pubkey>) -> int {
    choose|i: int|
        0 <= i < keys.len() && !registry.dom().contains(#[trigger] keys[i]) && holds_all(
            registry,
            keys,
            i,
        )
}

/// Among keys of which one has no key pair, there is a first such key.
proof fn lemma_missing_has_first(registry: Map<Pubkey, Arc<Keypair>>, keys: Seq<Pubkey>, at: int)
    requires
        0 <= at < keys.len(),
        !registry.dom().contains(keys[at]),
    ensures
        exists|i: int|
            0 <= i < keys.len() && !registry.dom().contains(#[trigger] keys[i]) && holds_all(
                registry,
                keys,
                i,
            ),
    decreases at,
{
    if !holds_all(registry, keys, at) {
        let earlier = choose|j: int| 0 <= j < at && !registry.dom().contains(#[trigger] keys[j]);
        lemma_missing_has_first(registry, keys, earlier);
    }
}

/// Where a key pair is missing for one of `keys`, `first_missing` is the position
/// of the first key without one.
pub proof fn lemma_first_missing(registry: Map<Pubkey, Arc<Keypair>>, keys: Seq<Pubkey>)
    requires
        !holds_all(registry, keys, keys.len() as int),
    ensures
        0 <= first_missing(registry, keys) < keys.len(),
        !registry.dom().contains(keys[first_missing(registry, keys)]),
        holds_all(registry, keys, first_missing(registry, keys)),
{
    let at = choose|j: int| 0 <= j < keys.len() && !registry.dom().contains(#[trigger] keys[j]);
    lemma_missing_has_first(registry, keys, at);
}

impl SignatureBuilder {
    /// The key pairs of the keys that have to sign `transaction`, in the order of
    /// those keys; or the first of those keys for which no key pair is held.
    pub fn signers_for_transaction(&self, transaction: &UnsignedTransaction) -> (signers: Result<
        Vec<Arc<Keypair>>,
        Pubkey,
    >)
        ensures
            match signers {
                Ok(list) => signers_for(self@, transaction@.signer_keys) == Ok::<
                    Seq<Arc<Keypair>>,
                    Pubkey,
                >(list@),
                Err(key) => signers_for(self@, transaction@.signer_keys) == Err::<
                    Seq<Arc<Keypair>>,
                    Pubkey,
                >(key),
            },
            self.consistent(),
            transaction.wf(),
    {
        let keys = transaction.signer_keys();
        proof {
            use_type_invariant(self);
            self.lemma_consistent();
        }
        let mut signers: Vec<Arc<Keypair>> = Vec::new();
        let mut i: usize = 0;
        while i < keys.len()
            invariant
                i <= keys.len(),
                self.wf(),
                self.consistent(),
                transaction.wf(),
                keys@ == transaction@.signer_keys,
                signers@.len() == i,
                holds_all(self@, keys@, i as int),
                forall|j: int| 0 <= j < i ==> (#[trigger] signers@[j]) == self@[keys@[j]],
            decreases keys.len() - i,
        {
            match self.get_signer(&keys[i]) {
                Some(signer) => {
                    signers.push(signer);
                },
                None => {
                    proof {
                        assert(!holds_all(self@, keys@, keys@.len() as int));
                        lemma_first_missing(self@, keys@);
                        let missing = first_missing(self@, keys@);
                        if missing < i {
                            assert(self@.dom().contains(keys@[missing]));
                        }
                        if i < missing {
                            assert(self@.dom().contains(keys@[i as int]));
                        }
                    }
                    return Err(keys[i]);
                },
            }
            i += 1;
        }
        assert(signers@ =~= Seq::new(keys@.len(), |i: int| self@[keys@[i]]));
        Ok(signers)
    }

    /// The signatures over `transaction` under `recent_blockhash`, one for each
    /// key that has to sign and in the order of those keys, each made by the key
    /// pair held for its key; no signatures where a key pair is missing.
    pub fn transaction_signatures(
        &self,
        transaction: &UnsignedTransaction,
        recent_blockhash: &solana_sdk::hash::Hash,
    ) -> (signatures: Result<Vec<Signature>, SigningError>)
        ensures
            match signatures {
                Ok(list) => signed_by_all(
                    self@,
                    transaction@.signer_keys,
                    message_data_bytes(
                        transaction@.fee_payer,
                        transaction@.instructions,
                        *recent_blockhash,
                    ),
                    list@,
                ),
                Err(reason) => reason matches SigningError::NotEnoughSigners && !holds_all(
                    self@,
                    transaction@.signer_keys,
                    transaction@.signer_keys.len() as int,
                ),
            },
    {
        let keys = transaction.signer_keys();
        let message = transaction.message_data(recent_blockhash);
        let mut signatures: Vec<Signature> = Vec::new();
        let mut i: usize = 0;
        while i < keys.len()
            invariant
                i <= keys.len(),
                keys@ == transaction@.signer_keys,
                signatures@.len() == i,
                holds_all(self@, keys@, i as int),
                forall|j: int|
                    0 <= j < i ==> (#[trigger] signatures@[j]).bytes@ == keypair_signature(
                        *self@[keys@[j]],
                        message@,
                    ),
            decreases keys.len() - i,
        {
            match self.get_signer(&keys[i]) {
                Some(keypair) => {
                    signatures.push(sign_with(&keypair, message.as_slice()));
                },
                None => {
                    return Err(SigningError::NotEnoughSigners);
                },
            }
            i += 1;
        }
        Ok(signatures)
    }

    /// Signs `transaction` under `recent_blockhash` with the key pairs held for the
    /// keys that have to sign it; fails where one of them is missing.
    pub fn sign_transaction(
        &self,
        transaction: &UnsignedTransaction,
        recent_blockhash: solana_sdk::hash::Hash,
    ) -> (signed: Result<Transaction, SigningError>)
        ensures
            match signed {
                Ok(made) => {
                    &&& holds_all(
                        self@,
                        transaction@.signer_keys,
                        transaction@.signer_keys.len() as int,
                    )
                    &&& carried_message_data(made) == message_data_bytes(
                        transaction@.fee_payer,
                        transaction@.instructions,
                        recent_blockhash,
                    )
                    &&& carries_signatures_of(
                        self@,
                        transaction@.signer_keys,
                        carried_message_data(made),
                        carried_signatures(made),
                    )
                },
                Err(reason) => reason matches SigningError::NotEnoughSigners && !holds_all(
                    self@,
                    transaction@.signer_keys,
                    transaction@.signer_keys.len() as int,
                ),
            },
    {
        match self.transaction_signatures(transaction, &recent_blockhash) {
            Ok(signatures) => {
                let made = transaction.with_signatures(&recent_blockhash, &signatures);
                assert forall|i: int| 0 <= i < transaction@.signer_keys.len() implies (
                #[trigger] carried_signatures(made)[i]) == keypair_signature(
                    *self@[transaction@.signer_keys[i]],
                    carried_message_data(made),
                ) by {
                    assert(carried_signatures(made)[i] == signatures@[i].bytes@);
                }
                Ok(made)
            },
            Err(reason) => Err(reason),
        }
    }
}

/// Whether `carried` holds, for each of `keys` and in their order, the bytes of the
/// signature over `message` of the key pair that `registry` holds for the key.
pub open spec fn carries_signatures_of(
    registry: Map<Pubkey, Arc<Keypair>>,
    keys: Seq<Pubkey>,
    message: Seq<u8>,
    carried: Seq<Seq<u8>>,
) -> bool {
    &&& carried.len() == keys.len()
    &&& forall|i: int|
        0 <= i < keys.len() ==> (#[trigger] carried[i]) == keypair_signature(
            *registry[keys[i]],
            message,
        )
}

/// Whether `signatures` holds, for each of `keys` and in their order, the signature
/// over `message` of the key pair that `registry` holds for the key.
pub open spec fn signed_by_all(
    registry: Map<Pubkey, Arc<Keypair>>,
    keys: Seq<Pubkey>,
    message: Seq<u8>,
    signatures: Seq<Signature>,
) -> bool {
    &&& holds_all(registry, keys, keys.len() as int)
    &&& signatures.len() == keys.len()
    &&& forall|i: int|
        0 <= i < keys.len() ==> (#[trigger] signatures[i]).bytes@ == keypair_signature(
            *registry[keys[i]],
            message,
        )
}

impl Clone for SignatureBuilder {
    fn clone(&self) -> (copy: Self)
        ensures
            copy@ == self@,
            copy.key_order() == self.key_order(),
    {
        proof {
            use_type_invariant(self);
        }
        let mut entries: Vec<SignerEntry> = Vec::new();
        let mut i: usize = 0;
        while i < self.entries.len()
            invariant
                i <= self.entries.len(),
                entries@ == self.entries@.subrange(0, i as int),
            decreases self.entries.len() - i,
        {
            entries.push(
                SignerEntry { key: self.entries[i].key, signer: share_keypair(&self.entries[i].signer) },
            );
            assert(entries@ =~= self.entries@.subrange(0, i + 1));
            i += 1;
        }
        assert(self.entries@.subrange(0, i as int) =~= self.entries@);
        SignatureBuilder { entries }
    }
}

impl Default for SignatureBuilder {
    fn default() -> (registry: Self)
        ensures
            registry@ == Map::<Pubkey, Arc<Keypair>>::empty(),
    {
        SignatureBuilder::new()
    }
}

} // verus!
