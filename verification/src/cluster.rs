//! What the nodes of a cluster say to each other, and when a follower may commit.

use crate::order::text_equal;
use crate::tasks::KindWithContent;
use vstd::prelude::*;
use vstd::string::StringExecFns;

verus! {

/// What a follower tells the leader.
#[derive(Debug, Clone)]
pub enum FollowerMsg {
    /// The follower is ready to commit the batch.
    ReadyToCommit(u32),
    /// The follower was asked to enqueue a task.
    RegisterNewTask(KindWithContent),
}

/// How many nodes must be ready before a batch is committed.
#[derive(Debug, Clone, Copy, PartialEq, Eq, Structural, Hash)]
pub enum Consistency {
    One,
    Two,
    Quorum,
    All,
}

impl Default for Consistency {
    fn default() -> (r: Self)
        ensures
            r == Consistency::All,
    {
        Consistency::All
    }
}

/// The level that a word names, if it names one.
pub open spec fn level_named(s: Seq<char>) -> Option<Consistency> {
    if s == "one"@ {
        Some(Consistency::One)
    } else if s == "two"@ {
        Some(Consistency::Two)
    } else if s == "quorum"@ {
        Some(Consistency::Quorum)
    } else if s == "all"@ {
        Some(Consistency::All)
    } else {
        None
    }
}

impl Consistency {
    /// The word that names the level.
    pub open spec fn name(self) -> Seq<char> {
        match self {
            Consistency::One => "one"@,
            Consistency::Two => "two"@,
            Consistency::Quorum => "quorum"@,
            Consistency::All => "all"@,
        }
    }

    /// The word that names the level.
    pub fn as_str(&self) -> (r: &'static str)
        ensures
            r@ == self.name(),
    {
        match self {
            Consistency::One => "one",
            Consistency::Two => "two",
            Consistency::Quorum => "quorum",
            Consistency::All => "all",
        }
    }

    /// The word that names the level, as a text of its own.
    pub fn to_string(&self) -> (r: String)
        ensures
            r@ == self.name(),
    {
        String::from_str(self.as_str())
    }

    /// The level that a word names. The error says what was read and what was expected.
    pub fn parse(s: &str) -> (r: Result<Consistency, String>)
        ensures
            match r {
                Ok(level) => level_named(s@) == Some(level),
                Err(message) => level_named(s@) is None && message@ == "Unexpected value `"@ + s@
                    + "`, expected one of `one`, `two`, `quorum`, `all`"@,
            },
    {
        if text_equal(s, "one") {
            Ok(Consistency::One)
        } else if text_equal(s, "two") {
            Ok(Consistency::Two)
        } else if text_equal(s, "quorum") {
            Ok(Consistency::Quorum)
        } else if text_equal(s, "all") {
            Ok(Consistency::All)
        } else {
            let message = String::from_str("Unexpected value `");
            let message = message.concat(s);
            let message = message.concat("`, expected one of `one`, `two`, `quorum`, `all`");
            Err(message)
        }
    }

    /// How many of `nodes` nodes must be ready: one, two, more than half, or all,
    /// and never more than there are.
    pub fn required(&self, nodes: usize) -> (r: usize)
        ensures
            r == self.spec_required(nodes as int),
            r <= nodes,
    {
        match self {
            Consistency::One => if nodes < 1 {
                nodes
            } else {
                1
            },
            Consistency::Two => if nodes < 2 {
                nodes
            } else {
                2
            },
            Consistency::Quorum => if nodes == 0 {
                0
            } else {
                nodes / 2 + 1
            },
            Consistency::All => nodes,
        }
    }

    pub open spec fn spec_required(self, nodes: int) -> int {
        match self {
            Consistency::One => if nodes < 1 {
                nodes
            } else {
                1
            },
            Consistency::Two => if nodes < 2 {
                nodes
            } else {
                2
            },
            Consistency::Quorum => if nodes == 0 {
                0
            } else {
                nodes / 2 + 1
            },
            Consistency::All => nodes,
        }
    }
}

/// The word that names a level names that level.
pub proof fn lemma_name_round_trip(level: Consistency)
    ensures
        level_named(level.name()) == Some(level),
{
    reveal_strlit("one");
    reveal_strlit("two");
    reveal_strlit("quorum");
    reveal_strlit("all");
    assert("one"@.len() == 3 && "two"@.len() == 3 && "quorum"@.len() == 6 && "all"@.len() == 3);
    assert("one"@[0] == 'o' && "two"@[0] == 't' && "all"@[0] == 'a');
}

/// What a follower that is ready to commit does with a leave to commit.
#[derive(Debug, Clone, Copy, PartialEq, Eq, Structural, Hash)]
pub enum CommitStep {
    /// The leave is for the batch at hand: commit.
    Commit,
    /// The leave is for an older batch: wait for the next one.
    KeepWaiting,
    /// The leave is for a later batch: a batch was missed.
    MissedBatch,
}

/// Decides what a follower does with the leave to commit the batch `received`
/// while it holds the batch `batch_id`.
pub fn commit_step(batch_id: u32, received: u32) -> (r: CommitStep)
    ensures
        r == CommitStep::Commit <==> received == batch_id,
        r == CommitStep::KeepWaiting <==> received < batch_id,
        r == CommitStep::MissedBatch <==> received > batch_id,
{
    if received == batch_id {
        CommitStep::Commit
    } else if received > batch_id {
        CommitStep::MissedBatch
    } else {
        CommitStep::KeepWaiting
    }
}

/// The key under which traffic is encrypted: the first 32 bytes of the master
/// key, filled up with zeros.
pub open spec fn spec_encryption_key(master_key: Seq<u8>) -> Seq<u8> {
    Seq::new(
        32,
        |i: int|
            if i < master_key.len() {
                master_key[i]
            } else {
                0u8
            },
    )
}

/// The key under which traffic is encrypted, and whether the master key is long
/// enough to be secure.
pub fn encryption_key(master_key: &[u8]) -> (r: (Vec<u8>, bool))
    ensures
        r.0@ == spec_encryption_key(master_key@),
        r.1 == (master_key@.len() >= 32),
{
    let mut enc: Vec<u8> = Vec::new();
    let mut i: usize = 0;
    while i < 32
        invariant
            i <= 32,
            enc.len() == i,
            forall|j: int|
                0 <= j < i ==> enc[j] == (if j < master_key@.len() {
                    master_key@[j]
                } else {
                    0u8
                }),
        decreases 32 - i,
    {
        if i < master_key.len() {
            enc.push(master_key[i]);
        } else {
            enc.push(0);
        }
        i += 1;
    }
    assert(enc@ =~= spec_encryption_key(master_key@));
    (enc, master_key.len() >= 32)
}

} // verus!
