//! The durable state that a transaction starts from and, where it returns, leaves behind.

use vstd::prelude::*;

use crate::bytesrepr::{le_bytes, lemma_le_bytes_len, lemma_le_value_bytes, pow256, write_le};
use crate::contracts::EntryPoints;
use crate::model::{find_record, ledger_wf, mint_address, mint_bytes, LedgerView, RecordView};
use crate::named_keys::NamedKeys;
use crate::uref::{copy_urefs, read_address, same_address, URef};

verus! {

/// A stored contract.
#[derive(Debug, PartialEq, Eq)]
pub struct ContractRecord {
    address: [u8; 32],
    entry_points: EntryPoints,
    named_keys: NamedKeys,
    granted: Vec<URef>,
    version: u64,
}

impl View for ContractRecord {
    type V = RecordView;

    closed spec fn view(&self) -> RecordView {
        RecordView {
            address: self.address,
            entry_points: self.entry_points@,
            named_keys: self.named_keys@,
            granted: self.granted@.to_set(),
            version: self.version,
        }
    }
}

impl DeepView for ContractRecord {
    type V = RecordView;

    open spec fn deep_view(&self) -> RecordView {
        self@
    }
}

impl ContractRecord {
    /// The record with the given parts, to which nothing was issued yet.
    pub(crate) fn new(
        address: [u8; 32],
        entry_points: EntryPoints,
        named_keys: NamedKeys,
        version: u64,
    ) -> (r: ContractRecord)
        ensures
            r@ == (RecordView {
                address,
                entry_points: entry_points@,
                named_keys: named_keys@,
                granted: Set::empty(),
                version,
            }),
    {
        let granted: Vec<URef> = Vec::new();
        proof {
            assert(granted@.to_set() =~= Set::<URef>::empty());
        }
        ContractRecord { address, entry_points, named_keys, granted, version }
    }

    /// Where the record lives.
    pub fn address(&self) -> (r: [u8; 32])
        ensures
            r == self@.address,
    {
        self.address
    }

    /// The entry-point table.
    pub fn entry_points(&self) -> (r: &EntryPoints)
        ensures
            r@ == self@.entry_points,
    {
        &self.entry_points
    }

    /// The namespace that calls of the contract start from.
    pub fn named_keys(&self) -> (r: &NamedKeys)
        ensures
            r@ == self@.named_keys,
    {
        &self.named_keys
    }

    /// The references that the host has issued to the contract.
    pub fn granted(&self) -> (r: &Vec<URef>)
        ensures
            r@.to_set() == self@.granted,
    {
        &self.granted
    }

    /// The version marker.
    pub fn version(&self) -> (r: u64)
        ensures
            r == self@.version,
    {
        self.version
    }

    /// A copy of this record.
    pub fn duplicate(&self) -> (r: ContractRecord)
        ensures
            r@ == self@,
    {
        ContractRecord {
            address: self.address,
            entry_points: self.entry_points.duplicate(),
            named_keys: self.named_keys.duplicate(),
            granted: copy_urefs(&self.granted),
            version: self.version,
        }
    }

    /// The record with `named_keys` in place of its namespace and
    /// `granted` in place of what was issued to it.
    pub(crate) fn with_named_keys(self, named_keys: NamedKeys, granted: Vec<URef>) -> (r:
        ContractRecord)
        ensures
            r@ == (RecordView {
                named_keys: named_keys@,
                granted: granted@.to_set(),
                ..self@
            }),
    {
        ContractRecord {
            address: self.address,
            entry_points: self.entry_points,
            named_keys,
            granted,
            version: self.version,
        }
    }

    /// The record with `entry_points` in place of its table and the next version marker.
    pub(crate) fn with_entry_points(self, entry_points: EntryPoints) -> (r: ContractRecord)
        requires
            self@.version < u64::MAX,
        ensures
            r@ == (RecordView {
                entry_points: entry_points@,
                version: (self@.version + 1) as u64,
                ..self@
            }),
    {
        ContractRecord {
            address: self.address,
            entry_points,
            named_keys: self.named_keys,
            granted: self.granted,
            version: self.version + 1,
        }
    }
}

/// The address of the `n`th record.
pub fn mint(n: u64) -> (r: [u8; 32])
    ensures
        r@ == mint_bytes(n as nat),
        r == mint_address(n as nat),
{
    let mut bytes: Vec<u8> = Vec::new();
    write_le(&mut bytes, n, 8);
    let mut i: usize = 0;
    proof {
        lemma_le_bytes_len(n as nat, 8);
    }
    while i < 24
        invariant
            i <= 24,
            bytes@ == le_bytes(n as nat, 8) + Seq::new(i as nat, |j: int| 0u8),
        decreases 24 - i,
    {
        bytes.push(0u8);
        i = i + 1;
        proof {
            assert(bytes@ =~= le_bytes(n as nat, 8) + Seq::new(i as nat, |j: int| 0u8));
        }
    }
    proof {
        lemma_le_bytes_len(n as nat, 8);
        assert(bytes@.take(32) =~= bytes@);
    }
    read_address(bytes.as_slice())
}

/// Records that live at different places in the order of registration have
/// different addresses.
pub proof fn lemma_mint_bytes_injective(i: nat, j: nat)
    requires
        i <= u64::MAX,
        j <= u64::MAX,
        mint_bytes(i) == mint_bytes(j),
    ensures
        i == j,
{
    reveal_with_fuel(pow256, 9);
    lemma_le_value_bytes(i, 8, Seq::empty());
    lemma_le_value_bytes(j, 8, Seq::empty());
    assert(mint_bytes(i).take(8) =~= le_bytes(i, 8));
    assert(mint_bytes(j).take(8) =~= le_bytes(j, 8));
}

/// In a ledger whose records live where the host put them, the record at
/// `i` is the one that is found at its address.
pub proof fn lemma_find_record(l: LedgerView, i: int)
    requires
        ledger_wf(l),
        0 <= i < l.records.len(),
    ensures
        find_record(l, l.records[i].address) == Some(i),
{
    let j = find_record(l, l.records[i].address)->Some_0;
    lemma_mint_bytes_injective(i as nat, j as nat);
}

/// The durable state.
#[derive(Debug, PartialEq, Eq)]
pub struct Ledger {
    account: NamedKeys,
    granted: Vec<URef>,
    records: Vec<ContractRecord>,
}

impl View for Ledger {
    type V = LedgerView;

    closed spec fn view(&self) -> LedgerView {
        LedgerView {
            account: self.account@,
            granted: self.granted@.to_set(),
            records: self.records.deep_view(),
        }
    }
}

impl Ledger {
    /// Whether the records live where the host put them.
    pub open spec fn wf(&self) -> bool {
        ledger_wf(self@)
    }

    /// The ledger without records, in which the account has no names and
    /// no reference was issued to it.
    pub fn new() -> (r: Ledger)
        ensures
            r.wf(),
            r@ == (LedgerView {
                account: Map::empty(),
                granted: Set::empty(),
                records: Seq::empty(),
            }),
    {
        let r = Ledger { account: NamedKeys::new(), granted: Vec::new(), records: Vec::new() };
        proof {
            assert(r.records.deep_view() =~= Seq::<RecordView>::empty());
            assert(r.granted@.to_set() =~= Set::<URef>::empty());
        }
        r
    }

    /// The references that the host has issued to the account.
    pub fn granted(&self) -> (r: &Vec<URef>)
        ensures
            r@.to_set() == self@.granted,
    {
        &self.granted
    }

    /// The namespace of the account.
    pub fn account(&self) -> (r: &NamedKeys)
        ensures
            r@ == self@.account,
    {
        &self.account
    }

    /// The number of records.
    pub fn record_count(&self) -> (r: usize)
        ensures
            r == self@.records.len(),
    {
        self.records.len()
    }

    /// The record at `i` in the order of registration.
    pub fn record(&self, i: usize) -> (r: &ContractRecord)
        requires
            i < self@.records.len(),
        ensures
            r@ == self@.records[i as int],
    {
        &self.records[i]
    }

    /// The place of the record that lives at `addr`, if there is one.
    pub fn find(&self, addr: &[u8; 32]) -> (r: Option<usize>)
        requires
            self.wf(),
        ensures
            match find_record(self@, *addr) {
                Some(i) => r matches Some(b) && b as int == i && 0 <= i < self@.records.len(),
                None => r.is_none(),
            },
    {
        let mut i: usize = 0;
        while i < self.records.len()
            invariant
                i <= self.records.len(),
                self.wf(),
                forall|j: int| 0 <= j < i ==> (#[trigger] self@.records[j]).address != *addr,
            decreases self.records.len() - i,
        {
            proof {
                assert(self@.records[i as int] == self.records@[i as int]@);
            }
            if same_address(&self.records[i].address, addr) {
                proof {
                    lemma_find_record(self@, i as int);
                }
                return Some(i);
            }
            i = i + 1;
        }
        None
    }

    /// A copy of this ledger.
    pub fn duplicate(&self) -> (r: Ledger)
        ensures
            r@ == self@,
    {
        let mut records: Vec<ContractRecord> = Vec::new();
        let mut i: usize = 0;
        while i < self.records.len()
            invariant
                i <= self.records.len(),
                records.deep_view() == self.records.deep_view().take(i as int),
            decreases self.records.len() - i,
        {
            let ghost before = records.deep_view();
            records.push(self.records[i].duplicate());
            proof {
                assert(records.deep_view() =~= before.push(self.records@[i as int]@));
                assert(self.records.deep_view().take(i + 1) =~= self.records.deep_view().take(
                    i as int,
                ).push(self.records@[i as int]@));
            }
            i = i + 1;
        }
        proof {
            assert(self.records.deep_view().take(i as int) =~= self.records.deep_view());
        }
        Ledger { account: self.account.duplicate(), granted: copy_urefs(&self.granted), records }
    }

    /// Puts `named_keys` in place of the namespace of the account, and
    /// `granted` in place of what was issued to it.
    pub(crate) fn set_account(&mut self, named_keys: NamedKeys, granted: Vec<URef>)
        ensures
            final(self)@ == (LedgerView {
                account: named_keys@,
                granted: granted@.to_set(),
                ..old(self)@
            }),
    {
        self.account = named_keys;
        self.granted = granted;
    }

    /// Puts `named_keys` in place of the namespace of the record at `i`,
    /// and `granted` in place of what was issued to it.
    pub(crate) fn set_named_keys(&mut self, i: usize, named_keys: NamedKeys, granted: Vec<URef>)
        requires
            i < old(self)@.records.len(),
        ensures
            final(self)@ == (LedgerView {
                records: old(self)@.records.update(
                    i as int,
                    RecordView {
                        named_keys: named_keys@,
                        granted: granted@.to_set(),
                        ..old(self)@.records[i as int]
                    },
                ),
                ..old(self)@
            }),
    {
        let ghost before = self.records.deep_view();
        let record = self.records.remove(i);
        proof {
            assert(record@ == before[i as int]);
        }
        let changed = record.with_named_keys(named_keys, granted);
        let ghost model = changed@;
        self.records.insert(i, changed);
        proof {
            assert(self.records.deep_view() =~= before.update(i as int, model));
        }
    }

    /// Puts `entry_points` in place of the table of the record at `i` and
    /// moves its version marker on.
    pub(crate) fn set_entry_points(&mut self, i: usize, entry_points: EntryPoints)
        requires
            i < old(self)@.records.len(),
            old(self)@.records[i as int].version < u64::MAX,
        ensures
            final(self)@ == (LedgerView {
                records: old(self)@.records.update(
                    i as int,
                    RecordView {
                        entry_points: entry_points@,
                        version: (old(self)@.records[i as int].version + 1) as u64,
                        ..old(self)@.records[i as int]
                    },
                ),
                ..old(self)@
            }),
    {
        let ghost before = self.records.deep_view();
        let record = self.records.remove(i);
        proof {
            assert(record@ == before[i as int]);
        }
        let changed = record.with_entry_points(entry_points);
        let ghost model = changed@;
        self.records.insert(i, changed);
        proof {
            assert(self.records.deep_view() =~= before.update(i as int, model));
        }
    }

    /// Adds a record as the last one.
    pub(crate) fn push_record(&mut self, record: ContractRecord)
        ensures
            final(self)@ == (LedgerView {
                records: old(self)@.records.push(record@),
                ..old(self)@
            }),
    {
        let ghost before = self.records.deep_view();
        let ghost model = record@;
        self.records.push(record);
        proof {
            assert(self.records.deep_view() =~= before.push(model));
        }
    }
}

} // verus!
