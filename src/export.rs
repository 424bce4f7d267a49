//! The final pass: one self-describing record for each live output.
use crate::codec::{decode_key, is_outpoint_key, lemma_key_injective, outpoint_key};
use crate::replay::keys_valid;
use crate::utxo_set::{EntryView, UtxoSet};
use vstd::prelude::*;

verus! {

/// A live output as it is written to the store.
pub struct UtxoRecord {
    pub txid: [u8; 32],
    pub index: u64,
    pub height: usize,
    pub value: u64,
    pub address: String,
}

/// The mathematical value of a record.
pub struct RecordView {
    pub txid: Seq<u8>,
    pub index: u64,
    pub height: usize,
    pub value: u64,
    pub address: Seq<char>,
}

impl View for UtxoRecord {
    type V = RecordView;

    open spec fn view(&self) -> RecordView {
        RecordView {
            txid: self.txid@,
            index: self.index,
            height: self.height,
            value: self.value,
            address: self.address@,
        }
    }
}

/// The key of the outpoint that a record describes.
pub open spec fn record_key(r: RecordView) -> Seq<char> {
    outpoint_key(r.txid, r.index as nat)
}

/// The entry that a record carries.
pub open spec fn record_entry(r: RecordView) -> EntryView {
    EntryView { height: r.height, value: r.value, address: r.address }
}

/// Whether `rs` holds exactly one record for each live output of `m`, with
/// its entry, in some order.
pub open spec fn is_dump_of(rs: Seq<RecordView>, m: Map<Seq<char>, EntryView>) -> bool {
    &&& forall|i: int|
        0 <= i < rs.len() ==> {
            &&& rs[i].txid.len() == 32
            &&& m.contains_key(#[trigger] record_key(rs[i]))
            &&& m[record_key(rs[i])] == record_entry(rs[i])
        }
    &&& forall|i: int, j: int|
        0 <= i < j < rs.len() ==> #[trigger] record_key(rs[i]) != #[trigger] record_key(rs[j])
    &&& forall|k: Seq<char>|
        #[trigger] m.contains_key(k) ==> exists|i: int|
            0 <= i < rs.len() && #[trigger] record_key(rs[i]) == k
}

/// The views of a sequence of records.
pub open spec fn record_views(rs: Seq<UtxoRecord>) -> Seq<RecordView> {
    rs.map_values(|r: UtxoRecord| r@)
}

/// One record for each live output of `set`.
pub fn export_set(set: &UtxoSet) -> (rs: Vec<UtxoRecord>)
    requires
        set.wf(),
        keys_valid(set@),
    ensures
        is_dump_of(record_views(rs@), set@),
{
    let items = set.items();
    proof {
        set.lemma_items();
    }
    let mut rs: Vec<UtxoRecord> = Vec::new();
    let mut i: usize = 0;
    while i < items.len()
        invariant
            i <= items@.len(),
            items@ == set.items_spec(),
            keys_valid(set@),
            forall|j: int|
                0 <= j < items@.len() ==> {
                    &&& set@.contains_key(#[trigger] items@[j].key@)
                    &&& set@[items@[j].key@] == items@[j].entry@
                },
            rs@.len() == i,
            forall|j: int|
                0 <= j < i ==> {
                    &&& #[trigger] rs@[j].txid@.len() == 32
                    &&& record_key(rs@[j]@) == items@[j].key@
                    &&& record_entry(rs@[j]@) == items@[j].entry@
                },
        decreases items@.len() - i,
    {
        let item = &items[i];
        assert(set@.contains_key(item.key@));
        assert(is_outpoint_key(item.key@));
        if let Some((txid, index)) = decode_key(&item.key) {
            rs.push(
                UtxoRecord {
                    txid,
                    index,
                    height: item.entry.height,
                    value: item.entry.value,
                    address: item.entry.address.clone(),
                },
            );
        }
        i = i + 1;
    }
    let ghost views = record_views(rs@);
    assert forall|k: Seq<char>| #[trigger] set@.contains_key(k) implies exists|j: int|
        0 <= j < views.len() && #[trigger] record_key(views[j]) == k by {
        let j = choose|j: int| 0 <= j < items@.len() && #[trigger] items@[j].key@ == k;
        assert(record_key(views[j]) == k);
    }
    assert forall|a: int, b: int| 0 <= a < b < views.len() implies #[trigger] record_key(views[a])
        != #[trigger] record_key(views[b]) by {
        assert(items@[a].key@ != items@[b].key@);
    }
    rs
}

/// Two exports of one set hold the same records: export is idempotent.
pub proof fn lemma_export_idempotent(
    rs1: Seq<RecordView>,
    rs2: Seq<RecordView>,
    m: Map<Seq<char>, EntryView>,
)
    requires
        is_dump_of(rs1, m),
        is_dump_of(rs2, m),
    ensures
        rs1.to_set() == rs2.to_set(),
{
    assert forall|x: RecordView| #[trigger] rs1.to_set().contains(x) implies rs2.to_set().contains(x) by {
        lemma_dump_member(rs1, rs2, m, x);
    }
    assert forall|x: RecordView| #[trigger] rs2.to_set().contains(x) implies rs1.to_set().contains(x) by {
        lemma_dump_member(rs2, rs1, m, x);
    }
    assert(rs1.to_set() =~= rs2.to_set());
}

proof fn lemma_dump_member(
    rs1: Seq<RecordView>,
    rs2: Seq<RecordView>,
    m: Map<Seq<char>, EntryView>,
    x: RecordView,
)
    requires
        is_dump_of(rs1, m),
        is_dump_of(rs2, m),
        rs1.to_set().contains(x),
    ensures
        rs2.to_set().contains(x),
{
    let i = choose|i: int| 0 <= i < rs1.len() && rs1[i] == x;
    let k = record_key(rs1[i]);
    assert(m.contains_key(k));
    let j = choose|j: int| 0 <= j < rs2.len() && #[trigger] record_key(rs2[j]) == k;
    let y = rs2[j];
    lemma_key_injective(x.txid, x.index as nat, y.txid, y.index as nat);
    assert(x == y);
    assert(rs2.contains(y));
}

} // verus!
