//! The log of authority-set changes and the lookup that says which set
//! governs a block.

use vstd::prelude::*;

verus! {

/// Identifies an authority set: a span of blocks governed by one fixed list
/// of authorities. Set 0 is the genesis set.
pub type SetId = u64;

/// What the log knows of the authority set that governs a block.
#[derive(Debug, PartialEq, Eq, Clone, Copy, Structural)]
pub enum AuthoritySetChangeId {
    /// The block lies after every recorded change: it belongs to the set that
    /// is still open.
    Latest,
    /// The set that governs the block, and the last block of that set.
    InSet(SetId, u64),
    /// The log lacks the entry that would tell.
    Unknown,
}

/// The entries `(set, last block of the set)` form a log: each entry's set
/// follows the one before it, and its last block lies after the one before it.
pub open spec fn is_change_log(entries: Seq<(SetId, u64)>) -> bool {
    forall|i: int|
        0 <= i < entries.len() - 1 ==> {
            &&& (#[trigger] entries[i]).0 + 1 == entries[i + 1].0
            &&& entries[i].1 < entries[i + 1].1
        }
}

/// `set` ending at `last_block` can follow `entries` in a log.
pub open spec fn extends_log(entries: Seq<(SetId, u64)>, set: SetId, last_block: u64) -> bool {
    entries.len() > 0 ==> entries.last().0 + 1 == set && entries.last().1 < last_block
}

/// The number of entries at the front of `entries` whose last block lies
/// before `block`; so, in a log, the place of the first set that reaches
/// `block`, or the length of the log where none does.
pub open spec fn first_reaching(entries: Seq<(SetId, u64)>, block: u64) -> int
    decreases entries.len(),
{
    if entries.len() == 0 || entries[0].1 >= block {
        0
    } else {
        1 + first_reaching(entries.skip(1), block)
    }
}

/// The answer of a log to the question which set governs `block`.
///
/// A block after the last recorded change is in the latest set. Otherwise the
/// first recorded set that reaches the block governs it, unless that set is
/// the first one recorded and is not the genesis set: then earlier changes
/// are missing, and the block may belong to a set that was never recorded.
/// An empty log tells nothing.
pub open spec fn set_id_of(entries: Seq<(SetId, u64)>, block: u64) -> AuthoritySetChangeId {
    if entries.len() == 0 {
        AuthoritySetChangeId::Unknown
    } else if entries.last().1 < block {
        AuthoritySetChangeId::Latest
    } else {
        let at = first_reaching(entries, block);
        if at == 0 && entries[0].0 != 0 {
            AuthoritySetChangeId::Unknown
        } else {
            AuthoritySetChangeId::InSet(entries[at].0, entries[at].1)
        }
    }
}

/// The log of authority-set changes: for each recorded set, the number of its
/// last block. Sets are recorded in order and without gaps between them; the
/// log may start at any set.
#[derive(Debug)]
pub struct AuthoritySetChanges {
    entries: Vec<(SetId, u64)>,
}

impl View for AuthoritySetChanges {
    type V = Seq<(SetId, u64)>;

    closed spec fn view(&self) -> Seq<(SetId, u64)> {
        self.entries@
    }
}

impl Clone for AuthoritySetChanges {
    fn clone(&self) -> (copy: Self)
        ensures
            copy@ == self@,
            is_change_log(copy@),
    {
        proof {
            use_type_invariant(self);
        }
        AuthoritySetChanges { entries: copy_entries(&self.entries) }
    }
}

/// A copy of `entries`.
fn copy_entries(entries: &Vec<(SetId, u64)>) -> (copy: Vec<(SetId, u64)>)
    ensures
        copy@ == entries@,
{
    let mut copy: Vec<(SetId, u64)> = Vec::new();
    let mut i: usize = 0;
    while i < entries.len()
        invariant
            i <= entries@.len(),
            copy@ == entries@.take(i as int),
        decreases entries@.len() - i,
    {
        copy.push(entries[i]);
        i += 1;
    }
    copy
}

impl AuthoritySetChanges {
    #[verifier::type_invariant]
    spec fn well_formed(self) -> bool {
        is_change_log(self.entries@)
    }

    /// A log without entries.
    pub fn empty() -> (log: Self)
        ensures
            log@ == Seq::<(SetId, u64)>::empty(),
            is_change_log(log@),
    {
        AuthoritySetChanges { entries: Vec::new() }
    }

    /// The number of recorded changes.
    pub fn len(&self) -> (n: usize)
        ensures
            n == self@.len(),
            is_change_log(self@),
    {
        proof {
            use_type_invariant(self);
        }
        self.entries.len()
    }

    /// Records that `set_id` ended at `block_number`, where that continues
    /// the log; otherwise leaves the log as it is. Says whether it recorded.
    pub fn append(&mut self, set_id: SetId, block_number: u64) -> (recorded: bool)
        ensures
            recorded == extends_log(old(self)@, set_id, block_number),
            recorded ==> final(self)@ == old(self)@.push((set_id, block_number)),
            !recorded ==> final(self)@ == old(self)@,
            is_change_log(final(self)@),
    {
        proof {
            use_type_invariant(&*self);
        }
        let n = self.entries.len();
        if n > 0 {
            let last = self.entries[n - 1];
            if last.0 == u64::MAX || last.0 + 1 != set_id || last.1 >= block_number {
                return false;
            }
        }
        let mut log = AuthoritySetChanges { entries: Vec::new() };
        core::mem::swap(self, &mut log);
        let mut entries = log.entries;
        entries.push((set_id, block_number));
        *self = AuthoritySetChanges { entries };
        true
    }

    /// The place of the first recorded set that reaches `block_number`.
    fn lower_bound(&self, block_number: u64) -> (at: usize)
        ensures
            at == first_reaching(self@, block_number),
            at <= self@.len(),
    {
        proof {
            use_type_invariant(self);
            lemma_log_is_ordered(self.entries@);
        }
        let mut low: usize = 0;
        let mut high: usize = self.entries.len();
        while low < high
            invariant
                low <= high <= self.entries@.len(),
                forall|i: int, j: int|
                    0 <= i < j < self.entries@.len() ==> (#[trigger] self.entries@[i]).1 < (
                    #[trigger] self.entries@[j]).1,
                forall|i: int| 0 <= i < low ==> (#[trigger] self.entries@[i]).1 < block_number,
                forall|i: int|
                    high <= i < self.entries@.len() ==> (#[trigger] self.entries@[i]).1
                        >= block_number,
            decreases high - low,
        {
            let mid = low + (high - low) / 2;
            if self.entries[mid].1 < block_number {
                low = mid + 1;
            } else {
                high = mid;
            }
        }
        proof {
            lemma_first_reaching_is(self.entries@, block_number, low as int);
        }
        low
    }

    /// Which set governs `block_number`, as far as the log tells.
    pub fn get_set_id(&self, block_number: u64) -> (id: AuthoritySetChangeId)
        ensures
            id == set_id_of(self@, block_number),
            is_change_log(self@),
    {
        proof {
            use_type_invariant(self);
        }
        let n = self.entries.len();
        if n == 0 {
            return AuthoritySetChangeId::Unknown;
        }
        if self.entries[n - 1].1 < block_number {
            return AuthoritySetChangeId::Latest;
        }
        let at = self.lower_bound(block_number);
        proof {
            lemma_first_reaching_bounds(self.entries@, block_number);
        }
        let (set_id, last_block) = self.entries[at];
        if at == 0 && set_id != 0 {
            AuthoritySetChangeId::Unknown
        } else {
            AuthoritySetChangeId::InSet(set_id, last_block)
        }
    }
}

/// In a log, a later entry ends at a later block and names a later set.
pub proof fn lemma_log_is_ordered(entries: Seq<(SetId, u64)>)
    requires
        is_change_log(entries),
    ensures
        forall|i: int, j: int|
            0 <= i < j < entries.len() ==> (#[trigger] entries[i]).1 < (#[trigger] entries[j]).1,
        forall|i: int, j: int|
            0 <= i <= j < entries.len() ==> (#[trigger] entries[i]).0 + (j - i) == (
            #[trigger] entries[j]).0,
    decreases entries.len(),
{
    if entries.len() > 1 {
        let front = entries.drop_last();
        let n = entries.len() - 1;
        assert(is_change_log(front));
        lemma_log_is_ordered(front);
        assert forall|i: int, j: int| 0 <= i < j < entries.len() implies (#[trigger] entries[i]).1
            < (#[trigger] entries[j]).1 by {
            if j == n && i < n - 1 {
                assert(front[i].1 < front[n - 1].1);
            } else if j < n {
                assert(front[i].1 < front[j].1);
            }
        }
        assert forall|i: int, j: int| 0 <= i <= j < entries.len() implies (#[trigger] entries[i]).0
            + (j - i) == (#[trigger] entries[j]).0 by {
            if j == n && i < n {
                assert(front[i].0 + (n - 1 - i) == front[n - 1].0);
            } else if j < n {
                assert(front[i].0 + (j - i) == front[j].0);
            }
        }
    }
}

/// `first_reaching` stays within the log, passes only entries that end before
/// `block`, and stops at an entry that does not.
pub proof fn lemma_first_reaching_bounds(entries: Seq<(SetId, u64)>, block: u64)
    ensures
        0 <= first_reaching(entries, block) <= entries.len(),
        forall|i: int|
            0 <= i < first_reaching(entries, block) ==> (#[trigger] entries[i]).1 < block,
        first_reaching(entries, block) < entries.len() ==> entries[first_reaching(
            entries,
            block,
        )].1 >= block,
    decreases entries.len(),
{
    if entries.len() == 0 || entries[0].1 >= block {
    } else {
        let rest = entries.skip(1);
        lemma_first_reaching_bounds(rest, block);
        assert forall|i: int| 0 <= i < first_reaching(entries, block) implies (
        #[trigger] entries[i]).1 < block by {
            if i > 0 {
                assert(rest[i - 1] == entries[i]);
            }
        }
    }
}

/// A place that only entries ending before `block` precede, and from which
/// on every entry reaches `block`, is the place that `first_reaching` gives.
proof fn lemma_first_reaching_is(entries: Seq<(SetId, u64)>, block: u64, at: int)
    requires
        0 <= at <= entries.len(),
        forall|i: int| 0 <= i < at ==> (#[trigger] entries[i]).1 < block,
        forall|i: int| at <= i < entries.len() ==> (#[trigger] entries[i]).1 >= block,
    ensures
        first_reaching(entries, block) == at,
    decreases entries.len(),
{
    if entries.len() > 0 && at > 0 {
        let rest = entries.skip(1);
        assert(forall|i: int| 0 <= i < at - 1 ==> (#[trigger] rest[i]).1 < block);
        assert(forall|i: int| at - 1 <= i < rest.len() ==> (#[trigger] rest[i]).1 >= block);
        lemma_first_reaching_is(rest, block, at - 1);
    }
}

/// What an answer `InSet` means: the block is no later than the set's last
/// block, and lies after the last block of the set before it, which is
/// recorded too unless the set is the genesis set.
pub proof fn lemma_set_governs_block(entries: Seq<(SetId, u64)>, block: u64)
    requires
        is_change_log(entries),
    ensures
        match set_id_of(entries, block) {
            AuthoritySetChangeId::InSet(set, last_block) => {
                &&& block <= last_block
                &&& entries.contains((set, last_block))
                &&& set == 0 || exists|before: u64| #[trigger]
                    entries.contains(((set - 1) as u64, before)) && before < block
            },
            AuthoritySetChangeId::Latest => forall|i: int|
                0 <= i < entries.len() ==> (#[trigger] entries[i]).1 < block,
            AuthoritySetChangeId::Unknown => entries.len() == 0 || (entries[0].0 != 0 && block
                <= entries[0].1),
        },
{
    lemma_log_is_ordered(entries);
    lemma_first_reaching_bounds(entries, block);
    let at = first_reaching(entries, block);
    if set_id_of(entries, block) is InSet && at > 0 {
        // The entry before the governing one is the witness.
        assert(entries.contains(((entries[at].0 - 1) as u64, entries[at - 1].1)));
    }
}

} // verus!
