//! The answer to a watch on a transaction output: which unconfirmed
//! transactions spend it.
//!
//! The store is asked outside this library. What it returns is one row per
//! sighting, in no order and with repetitions. The answer lists every
//! spending transaction once, in ascending order of its id, with the time of
//! its earliest sighting.

use vstd::prelude::*;
use vstd::utf8::{encode_utf8, encode_utf8_decode_utf8};

verus! {

/// A transaction output whose spenders are of interest.
#[derive(Debug, PartialEq, Eq)]
pub struct WatchedOutpoint {
    pub txid: String,
    pub vout: u32,
}

/// The mathematical value of a [`WatchedOutpoint`].
pub struct WatchedOutpointView {
    pub txid: Seq<char>,
    pub vout: u32,
}

impl View for WatchedOutpoint {
    type V = WatchedOutpointView;

    open spec fn view(&self) -> WatchedOutpointView {
        WatchedOutpointView { txid: self.txid@, vout: self.vout }
    }
}

impl Clone for WatchedOutpoint {
    fn clone(&self) -> (copy: Self)
        ensures
            copy == *self,
    {
        WatchedOutpoint { txid: self.txid.clone(), vout: self.vout }
    }
}

/// One sighting of an unconfirmed transaction that spends a watched output.
#[derive(Debug, PartialEq, Eq)]
pub struct MempoolObservation {
    pub txid: String,
    pub seen_at: u64,
}

/// The mathematical value of a [`MempoolObservation`].
pub struct MempoolObservationView {
    pub txid: Seq<char>,
    pub seen_at: u64,
}

impl View for MempoolObservation {
    type V = MempoolObservationView;

    open spec fn view(&self) -> MempoolObservationView {
        MempoolObservationView { txid: self.txid@, seen_at: self.seen_at }
    }
}

impl DeepView for MempoolObservation {
    type V = MempoolObservationView;

    open spec fn deep_view(&self) -> MempoolObservationView {
        self@
    }
}

impl Clone for MempoolObservation {
    fn clone(&self) -> (copy: Self)
        ensures
            copy == *self,
    {
        MempoolObservation { txid: self.txid.clone(), seen_at: self.seen_at }
    }
}

/// `a` and `b` agree on their first `k` bytes, and there `a` ends while `b`
/// goes on, or `a` has the smaller byte.
pub open spec fn diverges_at(a: Seq<u8>, b: Seq<u8>, k: int) -> bool {
    &&& 0 <= k <= a.len()
    &&& k <= b.len()
    &&& forall|i: int| 0 <= i < k ==> a[i] == b[i]
    &&& if k == a.len() {
        k < b.len()
    } else {
        k < b.len() && a[k] < b[k]
    }
}

/// `a` comes strictly before `b` in the lexicographic order of bytes.
pub open spec fn bytes_before(a: Seq<u8>, b: Seq<u8>) -> bool {
    exists|k: int| diverges_at(a, b, k)
}

/// The order of transaction ids: that of their UTF-8 bytes, which is how
/// strings are ordered.
#[verifier::opaque]
pub open spec fn txid_before(a: Seq<char>, b: Seq<char>) -> bool {
    bytes_before(encode_utf8(a), encode_utf8(b))
}

/// No byte string comes before itself.
pub proof fn lemma_bytes_before_irreflexive(a: Seq<u8>)
    ensures
        !bytes_before(a, a),
{
    assert forall|k: int| !diverges_at(a, a, k) by {}
}

/// The order of byte strings is transitive.
pub proof fn lemma_bytes_before_transitive(a: Seq<u8>, b: Seq<u8>, c: Seq<u8>)
    requires
        bytes_before(a, b),
        bytes_before(b, c),
    ensures
        bytes_before(a, c),
{
    let first = choose|k: int| diverges_at(a, b, k);
    let second = choose|k: int| diverges_at(b, c, k);
    let k = if first <= second {
        first
    } else {
        second
    };
    assert(diverges_at(a, b, first));
    assert(diverges_at(b, c, second));
    assert forall|i: int| 0 <= i < k implies a[i] == c[i] by {
        assert(a[i] == b[i]);
        assert(b[i] == c[i]);
    }
    if first < second {
        assert(b[first] == c[first]);
    } else if second < first {
        assert(a[second] == b[second]);
    }
    assert(diverges_at(a, c, k));
}

/// How one id stands to another.
enum Rank {
    Before,
    Same,
    After,
}

fn compare_bytes(a: &[u8], b: &[u8]) -> (rank: Rank)
    ensures
        match rank {
            Rank::Before => bytes_before(a@, b@),
            Rank::Same => a@ == b@,
            Rank::After => bytes_before(b@, a@),
        },
{
    let mut index: usize = 0;
    while index < a.len() && index < b.len()
        invariant
            index <= a.len(),
            index <= b.len(),
            forall|i: int| 0 <= i < index ==> a@[i] == b@[i],
        decreases a.len() - index,
    {
        if a[index] < b[index] {
            assert(diverges_at(a@, b@, index as int));
            return Rank::Before;
        }
        if b[index] < a[index] {
            assert(diverges_at(b@, a@, index as int));
            return Rank::After;
        }
        index = index + 1;
    }
    if a.len() < b.len() {
        assert(diverges_at(a@, b@, index as int));
        Rank::Before
    } else if b.len() < a.len() {
        assert(diverges_at(b@, a@, index as int));
        Rank::After
    } else {
        assert(a@ =~= b@);
        Rank::Same
    }
}

fn compare_txid(a: &String, b: &String) -> (rank: Rank)
    ensures
        match rank {
            Rank::Before => txid_before(a@, b@),
            Rank::Same => a@ == b@,
            Rank::After => txid_before(b@, a@),
        },
{
    let rank = compare_bytes(a.as_str().as_bytes(), b.as_str().as_bytes());
    proof {
        reveal(txid_before);
        encode_utf8_decode_utf8(a@);
        encode_utf8_decode_utf8(b@);
    }
    rank
}

/// Each transaction comes strictly before the next one: the ids ascend, and
/// none occurs twice.
pub open spec fn ascending(spenders: Seq<MempoolObservationView>) -> bool {
    forall|i: int, j: int|
        0 <= i < j < spenders.len() ==> txid_before(
            (#[trigger] spenders[i]).txid,
            (#[trigger] spenders[j]).txid,
        )
}

/// `spenders` lists the transaction of `row` with a sighting that is no later
/// than that of `row`.
pub open spec fn accounts_for(
    spenders: Seq<MempoolObservationView>,
    row: MempoolObservationView,
) -> bool {
    exists|j: int|
        0 <= j < spenders.len() && (#[trigger] spenders[j]).txid == row.txid && spenders[j].seen_at
            <= row.seen_at
}

/// `spenders` is the answer to a watch, given the `rows` of the store:
/// the ids ascend, every entry is one of the rows, and every row is accounted
/// for by an entry of its transaction that was seen no later. So each
/// transaction among the rows is listed once, with its earliest sighting.
pub open spec fn is_digest_of(
    spenders: Seq<MempoolObservationView>,
    rows: Seq<MempoolObservationView>,
) -> bool {
    &&& ascending(spenders)
    &&& forall|j: int| 0 <= j < spenders.len() ==> #[trigger] rows.contains(spenders[j])
    &&& forall|i: int| 0 <= i < rows.len() ==> #[trigger] accounts_for(spenders, rows[i])
}

/// Where the transaction `txid` stands in the ascending list `spenders`: the
/// index of its entry and `true`, or the index at which it would be inserted
/// and `false`.
fn seek(spenders: &Vec<MempoolObservation>, txid: &String) -> (found: (usize, bool))
    ensures
        found.0 <= spenders.len(),
        forall|i: int|
            0 <= i < found.0 ==> txid_before((#[trigger] spenders.deep_view()[i]).txid, txid@),
        found.1 ==> found.0 < spenders.len() && spenders.deep_view()[found.0 as int].txid == txid@,
        !found.1 && found.0 < spenders.len() ==> txid_before(
            txid@,
            spenders.deep_view()[found.0 as int].txid,
        ),
{
    let mut index: usize = 0;
    while index < spenders.len()
        invariant
            index <= spenders.len(),
            forall|i: int|
                0 <= i < index ==> txid_before((#[trigger] spenders.deep_view()[i]).txid, txid@),
        decreases spenders.len() - index,
    {
        assert(spenders.deep_view()[index as int] == spenders@[index as int]@);
        match compare_txid(&spenders[index].txid, txid) {
            Rank::Before => {},
            Rank::Same => {
                return (index, true);
            },
            Rank::After => {
                return (index, false);
            },
        }
        index = index + 1;
    }
    (index, false)
}

/// Puts `row` into the ascending list `spenders`: at its place where its
/// transaction is new, in place of the entry of its transaction where it was
/// seen earlier than that entry, and not at all otherwise.
fn place(spenders: &mut Vec<MempoolObservation>, row: MempoolObservation)
    requires
        ascending(old(spenders).deep_view()),
    ensures
        ascending(final(spenders).deep_view()),
        accounts_for(final(spenders).deep_view(), row@),
        forall|j: int|
            0 <= j < final(spenders).len() ==> (#[trigger] final(spenders).deep_view()[j]) == row@
                || old(spenders).deep_view().contains(final(spenders).deep_view()[j]),
        forall|other: MempoolObservationView|
            accounts_for(old(spenders).deep_view(), other) ==> accounts_for(
                final(spenders).deep_view(),
                other,
            ),
{
    let ghost before = spenders.deep_view();
    let ghost new = row@;
    let (index, same) = seek(spenders, &row.txid);
    if same {
        if row.seen_at < spenders[index].seen_at {
            spenders[index] = row;
            proof {
                let after = spenders.deep_view();
                assert(after =~= before.update(index as int, new));
                assert forall|i: int, j: int| 0 <= i < j < after.len() implies txid_before(
                    (#[trigger] after[i]).txid,
                    (#[trigger] after[j]).txid,
                ) by {
                    assert(txid_before(before[i].txid, before[j].txid));
                }
                assert(after[index as int].txid == new.txid);
                assert forall|other: MempoolObservationView|
                    accounts_for(before, other) implies accounts_for(after, other) by {
                    let j = choose|j: int|
                        0 <= j < before.len() && (#[trigger] before[j]).txid == other.txid
                            && before[j].seen_at <= other.seen_at;
                    assert(after[j].txid == other.txid && after[j].seen_at <= other.seen_at);
                }
                assert forall|j: int| 0 <= j < after.len() implies (#[trigger] after[j]) == new
                    || before.contains(after[j]) by {
                    if j != index {
                        assert(before[j] == after[j]);
                    }
                }
            }
        } else {
            assert(before[index as int].txid == new.txid);
        }
    } else {
        spenders.insert(index, row);
        proof {
            let after = spenders.deep_view();
            assert(after =~= before.insert(index as int, new));
            assert forall|i: int, j: int| 0 <= i < j < after.len() implies txid_before(
                (#[trigger] after[i]).txid,
                (#[trigger] after[j]).txid,
            ) by {
                if j < index {
                    assert(txid_before(before[i].txid, before[j].txid));
                } else if j == index {
                    assert(txid_before(before[i].txid, new.txid));
                } else if i < index {
                    assert(txid_before(before[i].txid, before[j - 1].txid));
                } else if i == index {
                    if j - 1 > index {
                        assert(txid_before(before[index as int].txid, before[j - 1].txid));
                        law_txid_order_is_total(
                            new.txid,
                            before[index as int].txid,
                            before[j - 1].txid,
                        );
                    }
                } else {
                    assert(txid_before(before[i - 1].txid, before[j - 1].txid));
                }
            }
            assert(after[index as int] == new);
            assert forall|other: MempoolObservationView|
                accounts_for(before, other) implies accounts_for(after, other) by {
                let j = choose|j: int|
                    0 <= j < before.len() && (#[trigger] before[j]).txid == other.txid
                        && before[j].seen_at <= other.seen_at;
                if j < index {
                    assert(after[j] == before[j]);
                } else {
                    assert(after[j + 1] == before[j]);
                }
            }
            assert forall|j: int| 0 <= j < after.len() implies (#[trigger] after[j]) == new
                || before.contains(after[j]) by {
                if j < index {
                    assert(before[j] == after[j]);
                } else if j > index {
                    assert(before[j - 1] == after[j]);
                }
            }
        }
    }
}

/// The answer to a watch, from the rows that the store returned: see
/// [`is_digest_of`].
pub fn earliest_spenders(rows: Vec<MempoolObservation>) -> (spenders: Vec<MempoolObservation>)
    ensures
        is_digest_of(spenders.deep_view(), rows.deep_view()),
{
    let mut spenders: Vec<MempoolObservation> = Vec::new();
    let mut next: usize = 0;
    while next < rows.len()
        invariant
            next <= rows.len(),
            ascending(spenders.deep_view()),
            forall|j: int|
                0 <= j < spenders.len() ==> #[trigger] rows.deep_view().contains(
                    spenders.deep_view()[j],
                ),
            forall|i: int|
                0 <= i < next ==> #[trigger] accounts_for(
                    spenders.deep_view(),
                    rows.deep_view()[i],
                ),
        decreases rows.len() - next,
    {
        let ghost earlier = spenders.deep_view();
        let row = rows[next].clone();
        place(&mut spenders, row);
        proof {
            let given = rows.deep_view();
            let listed = spenders.deep_view();
            assert(given[next as int] == row@);
            assert forall|j: int| 0 <= j < listed.len() implies #[trigger] given.contains(
                listed[j],
            ) by {
                let entry = listed[j];
                if entry != row@ {
                    let at = choose|at: int| 0 <= at < earlier.len() && earlier[at] == entry;
                    assert(given.contains(earlier[at]));
                }
            }
            assert forall|i: int| 0 <= i < next + 1 implies #[trigger] accounts_for(
                listed,
                given[i],
            ) by {
                if i < next {
                    assert(accounts_for(earlier, given[i]));
                }
            }
        }
        next = next + 1;
    }
    spenders
}

/// Why a watch could not be answered.
#[derive(Debug, PartialEq, Eq)]
pub enum WatchError {
    /// The store failed. The text is the store's own account of the failure.
    Store(String),
}

/// The mathematical value of a [`WatchError`].
pub enum WatchErrorView {
    Store(Seq<char>),
}

impl View for WatchError {
    type V = WatchErrorView;

    open spec fn view(&self) -> WatchErrorView {
        match *self {
            WatchError::Store(reason) => WatchErrorView::Store(reason@),
        }
    }
}

/// The reply to a watch, from what the store returned: the digest of its
/// rows, or the store's failure as an error that the registry task survives.
pub fn answer_watch(stored: Result<Vec<MempoolObservation>, String>) -> (answer: Result<
    Vec<MempoolObservation>,
    WatchError,
>)
    ensures
        match stored {
            Ok(rows) => answer is Ok && is_digest_of(
                answer->Ok_0.deep_view(),
                rows.deep_view(),
            ),
            Err(reason) => answer is Err && answer->Err_0@ == WatchErrorView::Store(reason@),
        },
{
    match stored {
        Ok(rows) => Ok(earliest_spenders(rows)),
        Err(reason) => Err(WatchError::Store(reason)),
    }
}

/// Of two different byte strings one comes before the other.
pub proof fn lemma_bytes_before_total(a: Seq<u8>, b: Seq<u8>)
    requires
        a != b,
    ensures
        bytes_before(a, b) || bytes_before(b, a),
{
    let at = lemma_first_difference(a, b, 0);
}

/// The first index at or after `from` at which `a` and `b` part.
proof fn lemma_first_difference(a: Seq<u8>, b: Seq<u8>, from: int) -> (at: int)
    requires
        a != b,
        0 <= from <= a.len(),
        from <= b.len(),
        forall|i: int| 0 <= i < from ==> a[i] == b[i],
    ensures
        diverges_at(a, b, at) || diverges_at(b, a, at),
    decreases a.len() - from,
{
    if from == a.len() {
        if from == b.len() {
            assert(a =~= b);
        }
        from
    } else if from == b.len() {
        from
    } else if a[from] != b[from] {
        from
    } else {
        lemma_first_difference(a, b, from + 1)
    }
}

/// The order of transaction ids is a strict total order: no id comes before
/// itself, the order is transitive, and of two different ids one comes
/// before the other.
pub proof fn law_txid_order_is_total(a: Seq<char>, b: Seq<char>, c: Seq<char>)
    ensures
        !txid_before(a, a),
        txid_before(a, b) && txid_before(b, c) ==> txid_before(a, c),
        a != b ==> txid_before(a, b) || txid_before(b, a),
{
    reveal(txid_before);
    lemma_bytes_before_irreflexive(encode_utf8(a));
    if txid_before(a, b) && txid_before(b, c) {
        lemma_bytes_before_transitive(encode_utf8(a), encode_utf8(b), encode_utf8(c));
    }
    if a != b {
        encode_utf8_decode_utf8(a);
        encode_utf8_decode_utf8(b);
        lemma_bytes_before_total(encode_utf8(a), encode_utf8(b));
    }
}

/// In an ascending list a transaction has one place.
proof fn lemma_ascending_one_place(spenders: Seq<MempoolObservationView>, i: int, j: int)
    requires
        ascending(spenders),
        0 <= i < spenders.len(),
        0 <= j < spenders.len(),
        spenders[i].txid == spenders[j].txid,
    ensures
        i == j,
{
    law_txid_order_is_total(spenders[i].txid, spenders[i].txid, spenders[i].txid);
    if i < j {
        assert(txid_before(spenders[i].txid, spenders[j].txid));
    } else if j < i {
        assert(txid_before(spenders[j].txid, spenders[i].txid));
    }
}

/// Two ascending lists with the same entries are the same list.
proof fn lemma_ascending_same_entries(
    first: Seq<MempoolObservationView>,
    second: Seq<MempoolObservationView>,
)
    requires
        ascending(first),
        ascending(second),
        forall|i: int| 0 <= i < first.len() ==> second.contains(#[trigger] first[i]),
        forall|i: int| 0 <= i < second.len() ==> first.contains(#[trigger] second[i]),
    ensures
        first == second,
    decreases first.len(),
{
    if first.len() == 0 {
        if second.len() > 0 {
            assert(first.contains(second[0]));
        }
        assert(first =~= second);
    } else {
        let a = first.last();
        assert(second.contains(first[first.len() - 1]));
        let b = second.last();
        assert(first.contains(second[second.len() - 1]));
        let k = choose|k: int| 0 <= k < second.len() && second[k] == a;
        let j = choose|j: int| 0 <= j < first.len() && first[j] == b;
        if k < second.len() - 1 && j < first.len() - 1 {
            assert(txid_before(second[k].txid, second[second.len() - 1].txid));
            assert(txid_before(first[j].txid, first[first.len() - 1].txid));
            law_txid_order_is_total(a.txid, b.txid, a.txid);
        }
        assert(a == b);
        let shorter_first = first.drop_last();
        let shorter_second = second.drop_last();
        assert forall|i: int| 0 <= i < shorter_first.len() implies shorter_second.contains(
            #[trigger] shorter_first[i],
        ) by {
            assert(second.contains(first[i]));
            let at = choose|at: int| 0 <= at < second.len() && second[at] == first[i];
            if at == second.len() - 1 {
                lemma_ascending_one_place(first, i, first.len() - 1);
            }
            assert(shorter_second[at] == first[i]);
        }
        assert forall|i: int| 0 <= i < shorter_second.len() implies shorter_first.contains(
            #[trigger] shorter_second[i],
        ) by {
            assert(first.contains(second[i]));
            let at = choose|at: int| 0 <= at < first.len() && first[at] == second[i];
            if at == first.len() - 1 {
                lemma_ascending_one_place(second, i, second.len() - 1);
            }
            assert(shorter_first[at] == second[i]);
        }
        assert(ascending(shorter_first)) by {
            assert forall|i: int, j: int| 0 <= i < j < shorter_first.len() implies txid_before(
                (#[trigger] shorter_first[i]).txid,
                (#[trigger] shorter_first[j]).txid,
            ) by {
                assert(txid_before(first[i].txid, first[j].txid));
            }
        }
        assert(ascending(shorter_second)) by {
            assert forall|i: int, j: int| 0 <= i < j < shorter_second.len() implies txid_before(
                (#[trigger] shorter_second[i]).txid,
                (#[trigger] shorter_second[j]).txid,
            ) by {
                assert(txid_before(second[i].txid, second[j].txid));
            }
        }
        lemma_ascending_same_entries(shorter_first, shorter_second);
        assert(first =~= shorter_first.push(a));
        assert(second =~= shorter_second.push(b));
    }
}

/// Every entry of one digest of `rows` is an entry of any other.
proof fn lemma_digest_entry_is_shared(
    first: Seq<MempoolObservationView>,
    second: Seq<MempoolObservationView>,
    rows: Seq<MempoolObservationView>,
    i: int,
)
    requires
        is_digest_of(first, rows),
        is_digest_of(second, rows),
        0 <= i < first.len(),
    ensures
        second.contains(first[i]),
{
    let entry = first[i];
    assert(rows.contains(entry));
    let r = choose|r: int| 0 <= r < rows.len() && rows[r] == entry;
    assert(accounts_for(second, rows[r]));
    let k = choose|k: int|
        0 <= k < second.len() && (#[trigger] second[k]).txid == entry.txid && second[k].seen_at
            <= entry.seen_at;
    assert(rows.contains(second[k]));
    let back = choose|back: int| 0 <= back < rows.len() && rows[back] == second[k];
    assert(accounts_for(first, rows[back]));
    let j = choose|j: int|
        0 <= j < first.len() && (#[trigger] first[j]).txid == second[k].txid && first[j].seen_at
            <= second[k].seen_at;
    lemma_ascending_one_place(first, i, j);
    assert(second[k] == entry);
}

/// The rows of the store decide the answer to a watch: whatever their order
/// and however often a sighting is repeated, there is one digest of them.
pub proof fn law_digest_is_unique(
    first: Seq<MempoolObservationView>,
    second: Seq<MempoolObservationView>,
    rows: Seq<MempoolObservationView>,
)
    requires
        is_digest_of(first, rows),
        is_digest_of(second, rows),
    ensures
        first == second,
{
    assert forall|i: int| 0 <= i < first.len() implies second.contains(#[trigger] first[i]) by {
        lemma_digest_entry_is_shared(first, second, rows, i);
    }
    assert forall|i: int| 0 <= i < second.len() implies first.contains(#[trigger] second[i]) by {
        lemma_digest_entry_is_shared(second, first, rows, i);
    }
    lemma_ascending_same_entries(first, second);
}

} // verus!
