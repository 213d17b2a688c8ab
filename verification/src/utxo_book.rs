//! The book of the outputs that a transaction spends, by wallet and keychain.

use std::collections::HashMap;

use vstd::prelude::*;

use crate::finished::utxos_view;
use crate::outpoints::OutPointMap;
use crate::placement::lists_view;
use crate::primitives::{KeychainId, OutPoint, WalletId};
use crate::psbt::{Psbt, PsbtInput};

verus! {

broadcast use vstd::std_specs::hash::group_hash_axioms;

/// The book of the outputs that a transaction spends.
pub struct UtxoBook {
    /// The outputs by wallet and keychain.
    pub utxos: HashMap<WalletId, HashMap<KeychainId, Vec<OutPoint>>>,
    /// The wallet of each keychain.
    pub keychains: HashMap<KeychainId, WalletId>,
    /// All outputs.
    pub included: OutPointMap<()>,
}

/// The contents of a [`UtxoBook`].
#[verifier::ext_equal]
pub struct UtxoBookView {
    pub utxos: Map<WalletId, Map<KeychainId, Seq<OutPoint>>>,
    pub keychains: Map<KeychainId, WalletId>,
    pub included: Set<OutPoint>,
}

impl View for UtxoBook {
    type V = UtxoBookView;

    open spec fn view(&self) -> UtxoBookView {
        UtxoBookView {
            utxos: utxos_view(self.utxos@),
            keychains: self.keychains@,
            included: self.included@.dom(),
        }
    }
}

/// Is `outpoint` the `i`-th entry of keychain `keychain` of wallet `wallet`?
pub open spec fn is_entry(
    utxos: Map<WalletId, Map<KeychainId, Seq<OutPoint>>>,
    wallet: WalletId,
    keychain: KeychainId,
    i: int,
    outpoint: OutPoint,
) -> bool {
    &&& utxos.contains_key(wallet)
    &&& utxos[wallet].contains_key(keychain)
    &&& 0 <= i < utxos[wallet][keychain].len()
    &&& utxos[wallet][keychain][i] == outpoint
}

impl UtxoBookView {
    /// What the transaction spends of `wallet`.
    pub open spec fn of_wallet(self, wallet: WalletId) -> Map<KeychainId, Seq<OutPoint>> {
        if self.utxos.contains_key(wallet) {
            self.utxos[wallet]
        } else {
            Map::empty()
        }
    }

    /// What the transaction spends of keychain `keychain` of `wallet`.
    pub open spec fn of_keychain(self, wallet: WalletId, keychain: KeychainId) -> Seq<OutPoint> {
        if self.of_wallet(wallet).contains_key(keychain) {
            self.of_wallet(wallet)[keychain]
        } else {
            Seq::empty()
        }
    }

    /// The book with one more entry.
    pub open spec fn include_utxo(
        self,
        wallet: WalletId,
        keychain: KeychainId,
        outpoint: OutPoint,
    ) -> UtxoBookView {
        UtxoBookView {
            utxos: self.utxos.insert(
                wallet,
                self.of_wallet(wallet).insert(
                    keychain,
                    self.of_keychain(wallet, keychain).push(outpoint),
                ),
            ),
            keychains: self.keychains.insert(keychain, wallet),
            included: self.included.insert(outpoint),
        }
    }

    /// The book with entries for the first `n` inputs.
    pub open spec fn include_inputs(
        self,
        wallet: WalletId,
        keychain: KeychainId,
        inputs: Seq<PsbtInput>,
        n: nat,
    ) -> UtxoBookView
        decreases n,
    {
        if n == 0 {
            self
        } else {
            self.include_inputs(wallet, keychain, inputs, (n - 1) as nat).include_utxo(
                wallet,
                keychain,
                inputs[n - 1].previous_output,
            )
        }
    }

    /// The book with entries for all inputs of the first `n` transactions.
    pub open spec fn include_psbts(
        self,
        wallet: WalletId,
        psbts: Seq<(KeychainId, Psbt)>,
        n: nat,
    ) -> UtxoBookView
        decreases n,
    {
        if n == 0 {
            self
        } else {
            self.include_psbts(wallet, psbts, (n - 1) as nat).include_inputs(
                wallet,
                psbts[n - 1].0,
                psbts[n - 1].1.inputs@,
                psbts[n - 1].1.inputs@.len(),
            )
        }
    }

    /// The book with entries for those of the first `n` inputs that had none.
    pub open spec fn attribute_inputs(
        self,
        wallet: WalletId,
        keychain: KeychainId,
        inputs: Seq<PsbtInput>,
        n: nat,
    ) -> UtxoBookView
        decreases n,
    {
        if n == 0 {
            self
        } else {
            let before = self.attribute_inputs(wallet, keychain, inputs, (n - 1) as nat);
            let outpoint = inputs[n - 1].previous_output;
            if before.included.contains(outpoint) {
                before
            } else {
                before.include_utxo(wallet, keychain, outpoint)
            }
        }
    }

    /// Does the book list exactly the outputs that it counts as included, and know
    /// a wallet for each keychain that it lists?
    pub open spec fn consistent(self) -> bool {
        &&& forall|outpoint: OutPoint| #[trigger]
            self.included.contains(outpoint) ==> exists|
                wallet: WalletId,
                keychain: KeychainId,
                i: int,
            |
                is_entry(self.utxos, wallet, keychain, i, outpoint)
        &&& forall|wallet: WalletId, keychain: KeychainId, i: int, outpoint: OutPoint| #[trigger]
            is_entry(self.utxos, wallet, keychain, i, outpoint) ==> self.included.contains(
                outpoint,
            )
        &&& forall|wallet: WalletId, keychain: KeychainId|
            self.utxos.contains_key(wallet) && #[trigger] self.utxos[wallet].contains_key(keychain)
                ==> self.keychains.contains_key(keychain)
    }

    /// Does the book list keychains under their wallets, each with something to list,
    /// and name the wallets of exactly these keychains?
    pub open spec fn knows_wallets(self) -> bool {
        &&& forall|wallet: WalletId, keychain: KeychainId| #[trigger]
            self.lists_keychain(wallet, keychain) ==> {
                &&& self.utxos[wallet][keychain].len() > 0
                &&& self.keychains.contains_key(keychain)
                &&& self.keychains[keychain] == wallet
            }
        &&& forall|keychain: KeychainId| #[trigger]
            self.keychains.contains_key(keychain) ==> self.lists_keychain(
                self.keychains[keychain],
                keychain,
            )
    }

    /// Does the book list `keychain` under `wallet`?
    pub open spec fn lists_keychain(self, wallet: WalletId, keychain: KeychainId) -> bool {
        self.utxos.contains_key(wallet) && self.utxos[wallet].contains_key(keychain)
    }

    /// Does the book list `outpoint` under keychain `keychain` of `wallet`?
    pub open spec fn lists_under(
        self,
        wallet: WalletId,
        keychain: KeychainId,
        outpoint: OutPoint,
    ) -> bool {
        exists|i: int| #[trigger] is_entry(self.utxos, wallet, keychain, i, outpoint)
    }

    /// Is nothing of this book missing from `now`?
    pub open spec fn kept_in(self, now: UtxoBookView) -> bool {
        forall|wallet: WalletId, keychain: KeychainId, i: int, outpoint: OutPoint| #[trigger]
            is_entry(self.utxos, wallet, keychain, i, outpoint) ==> is_entry(
                now.utxos,
                wallet,
                keychain,
                i,
                outpoint,
            )
    }

    /// Does the book name no other wallet for `keychain` than `wallet`?
    pub open spec fn free_for(self, wallet: WalletId, keychain: KeychainId) -> bool {
        self.keychains.contains_key(keychain) ==> self.keychains[keychain] == wallet
    }

    /// Does the book list no output twice?
    pub open spec fn lists_each_once(self) -> bool {
        forall|
            w1: WalletId,
            k1: KeychainId,
            i1: int,
            w2: WalletId,
            k2: KeychainId,
            i2: int,
            outpoint: OutPoint,
        | #[trigger]
            is_entry(self.utxos, w1, k1, i1, outpoint) && #[trigger] is_entry(
                self.utxos,
                w2,
                k2,
                i2,
                outpoint,
            ) ==> w1 == w2 && k1 == k2 && i1 == i2
    }
}

/// One more entry keeps the book consistent.
pub proof fn lemma_include_utxo(
    book: UtxoBookView,
    wallet: WalletId,
    keychain: KeychainId,
    outpoint: OutPoint,
)
    requires
        book.consistent(),
    ensures
        book.include_utxo(wallet, keychain, outpoint).consistent(),
{
    let now = book.include_utxo(wallet, keychain, outpoint);
    let list = book.of_keychain(wallet, keychain);
    assert forall|o: OutPoint| #[trigger] now.included.contains(o) implies exists|
        w: WalletId,
        k: KeychainId,
        i: int,
    |
        is_entry(now.utxos, w, k, i, o) by {
        if o == outpoint {
            assert(is_entry(now.utxos, wallet, keychain, list.len() as int, o));
        } else {
            let (w, k, i) = choose|w: WalletId, k: KeychainId, i: int|
                is_entry(book.utxos, w, k, i, o);
            assert(is_entry(now.utxos, w, k, i, o));
        }
    }
    assert forall|w: WalletId, k: KeychainId, i: int, o: OutPoint| #[trigger]
        is_entry(now.utxos, w, k, i, o) implies now.included.contains(o) by {
        if w == wallet && k == keychain && i == list.len() {
        } else {
            assert(is_entry(book.utxos, w, k, i, o));
        }
    }
    assert forall|w: WalletId, k: KeychainId|
        now.utxos.contains_key(w) && #[trigger] now.utxos[w].contains_key(
            k,
        ) implies now.keychains.contains_key(k) by {
        if w == wallet && k == keychain {
        } else {
            assert(book.utxos.contains_key(w) && book.utxos[w].contains_key(k));
        }
    }
}

/// Entries for inputs keep the book consistent.
pub proof fn lemma_include_inputs(
    book: UtxoBookView,
    wallet: WalletId,
    keychain: KeychainId,
    inputs: Seq<PsbtInput>,
    n: nat,
)
    requires
        book.consistent(),
    ensures
        book.include_inputs(wallet, keychain, inputs, n).consistent(),
        book.include_inputs(wallet, keychain, inputs, n).utxos.dom().subset_of(
            book.utxos.dom().insert(wallet),
        ),
    decreases n,
{
    if n > 0 {
        lemma_include_inputs(book, wallet, keychain, inputs, (n - 1) as nat);
        lemma_include_utxo(
            book.include_inputs(wallet, keychain, inputs, (n - 1) as nat),
            wallet,
            keychain,
            inputs[n - 1].previous_output,
        );
    }
}

/// Entries for the inputs of transactions keep the book consistent.
pub proof fn lemma_include_psbts(
    book: UtxoBookView,
    wallet: WalletId,
    psbts: Seq<(KeychainId, Psbt)>,
    n: nat,
)
    requires
        book.consistent(),
    ensures
        book.include_psbts(wallet, psbts, n).consistent(),
        book.include_psbts(wallet, psbts, n).utxos.dom().subset_of(
            book.utxos.dom().insert(wallet),
        ),
    decreases n,
{
    if n > 0 {
        lemma_include_psbts(book, wallet, psbts, (n - 1) as nat);
        lemma_include_inputs(
            book.include_psbts(wallet, psbts, (n - 1) as nat),
            wallet,
            psbts[n - 1].0,
            psbts[n - 1].1.inputs@,
            psbts[n - 1].1.inputs@.len(),
        );
    }
}

/// Entries for the inputs that had none keep the book consistent.
pub proof fn lemma_attribute_inputs(
    book: UtxoBookView,
    wallet: WalletId,
    keychain: KeychainId,
    inputs: Seq<PsbtInput>,
    n: nat,
)
    requires
        book.consistent(),
    ensures
        book.attribute_inputs(wallet, keychain, inputs, n).consistent(),
        book.attribute_inputs(wallet, keychain, inputs, n).utxos.dom().subset_of(
            book.utxos.dom().insert(wallet),
        ),
        book.included.subset_of(book.attribute_inputs(wallet, keychain, inputs, n).included),
        forall|i: int|
            0 <= i < n ==> book.attribute_inputs(
                wallet,
                keychain,
                inputs,
                n,
            ).included.contains((#[trigger] inputs[i]).previous_output),
    decreases n,
{
    if n > 0 {
        lemma_attribute_inputs(book, wallet, keychain, inputs, (n - 1) as nat);
        lemma_include_utxo(
            book.attribute_inputs(wallet, keychain, inputs, (n - 1) as nat),
            wallet,
            keychain,
            inputs[n - 1].previous_output,
        );
    }
}

impl UtxoBook {
    /// An empty book.
    pub fn new() -> (res: Self)
        ensures
            res@.utxos == Map::<WalletId, Map<KeychainId, Seq<OutPoint>>>::empty(),
            res@.keychains == Map::<KeychainId, WalletId>::empty(),
            res@.included == Set::<OutPoint>::empty(),
            res@.consistent(),
    {
        let res = UtxoBook {
            utxos: HashMap::new(),
            keychains: HashMap::new(),
            included: OutPointMap::new(),
        };
        assert(res@.utxos =~= Map::empty());
        assert(res@.included =~= Set::empty());
        res
    }

    /// Adds an entry.
    pub fn include_utxo(&mut self, wallet: WalletId, keychain: KeychainId, outpoint: OutPoint)
        ensures
            final(self)@ == old(self)@.include_utxo(wallet, keychain, outpoint),
    {
        let mut of_wallet = match self.utxos.remove(&wallet) {
            Some(of_wallet) => of_wallet,
            None => HashMap::new(),
        };
        let ghost spent = lists_view(of_wallet@);
        assert(spent =~= old(self)@.of_wallet(wallet));
        let mut list = match of_wallet.remove(&keychain) {
            Some(list) => list,
            None => Vec::new(),
        };
        assert(list@ =~= old(self)@.of_keychain(wallet, keychain));
        list.push(outpoint);
        let ghost pushed = list@;
        of_wallet.insert(keychain, list);
        assert(lists_view(of_wallet@) =~= spent.insert(keychain, pushed));
        self.utxos.insert(wallet, of_wallet);
        self.keychains.insert(keychain, wallet);
        self.included.insert(outpoint, ());
        proof {
            let now = old(self)@.include_utxo(wallet, keychain, outpoint);
            assert(self@.utxos =~= now.utxos);
            assert(self@.included =~= now.included);
        }
    }

    /// Adds entries for all inputs of `inputs`.
    pub fn include_inputs(
        &mut self,
        wallet: WalletId,
        keychain: KeychainId,
        inputs: &Vec<PsbtInput>,
    )
        ensures
            final(self)@ == old(self)@.include_inputs(
                wallet,
                keychain,
                inputs@,
                inputs@.len(),
            ),
    {
        for i in 0..inputs.len()
            invariant
                self@ == old(self)@.include_inputs(wallet, keychain, inputs@, i as nat),
        {
            self.include_utxo(wallet, keychain, inputs[i].previous_output);
        }
    }

    /// Adds entries for all inputs of all transactions of `psbts`.
    pub fn include_psbts(&mut self, wallet: WalletId, psbts: &Vec<(KeychainId, Psbt)>)
        ensures
            final(self)@ == old(self)@.include_psbts(wallet, psbts@, psbts@.len()),
    {
        for i in 0..psbts.len()
            invariant
                self@ == old(self)@.include_psbts(wallet, psbts@, i as nat),
        {
            self.include_inputs(wallet, psbts[i].0, &psbts[i].1.inputs);
        }
    }

    /// Adds entries for those of the inputs that have none yet.
    pub fn attribute_inputs(
        &mut self,
        wallet: WalletId,
        keychain: KeychainId,
        inputs: &Vec<PsbtInput>,
    )
        ensures
            final(self)@ == old(self)@.attribute_inputs(
                wallet,
                keychain,
                inputs@,
                inputs@.len(),
            ),
    {
        for i in 0..inputs.len()
            invariant
                self@ == old(self)@.attribute_inputs(wallet, keychain, inputs@, i as nat),
        {
            let outpoint = inputs[i].previous_output;
            if !self.included.contains_key(&outpoint) {
                self.include_utxo(wallet, keychain, outpoint);
            }
        }
    }
}

} // verus!
