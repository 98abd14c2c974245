//! What an API key may do.

use crate::order::text_equal;
use vstd::prelude::*;

verus! {

pub const SEARCH: u32 = 1;

pub const DOCUMENTS_ADD: u32 = 1 << 1;

pub const DOCUMENTS_GET: u32 = 1 << 2;

pub const DOCUMENTS_DELETE: u32 = 1 << 3;

pub const DOCUMENTS_ALL: u32 = 0xe;

pub const INDEXES_CREATE: u32 = 1 << 4;

pub const INDEXES_GET: u32 = 1 << 5;

pub const INDEXES_UPDATE: u32 = 1 << 6;

pub const INDEXES_DELETE: u32 = 1 << 7;

pub const INDEXES_SWAP: u32 = 1 << 8;

pub const INDEXES_ALL: u32 = 0x1f0;

pub const TASKS_CANCEL: u32 = 1 << 9;

pub const TASKS_DELETE: u32 = 1 << 10;

pub const TASKS_GET: u32 = 1 << 11;

pub const TASKS_ALL: u32 = 0xe00;

pub const SETTINGS_GET: u32 = 1 << 12;

pub const SETTINGS_UPDATE: u32 = 1 << 13;

pub const SETTINGS_ALL: u32 = 0x3000;

pub const STATS_GET: u32 = 1 << 14;

pub const STATS_ALL: u32 = 1 << 14;

pub const METRICS_GET: u32 = 1 << 15;

pub const METRICS_ALL: u32 = 1 << 15;

pub const DUMPS_CREATE: u32 = 1 << 16;

pub const DUMPS_ALL: u32 = 1 << 16;

pub const SNAPSHOTS_CREATE: u32 = 1 << 17;

pub const SNAPSHOTS_ALL: u32 = 1 << 17;

pub const VERSION: u32 = 1 << 18;

pub const KEYS_CREATE: u32 = 1 << 19;

pub const KEYS_GET: u32 = 1 << 20;

pub const KEYS_UPDATE: u32 = 1 << 21;

pub const KEYS_DELETE: u32 = 1 << 22;

pub const EXPERIMENTAL_FEATURES_GET: u32 = 1 << 23;

pub const EXPERIMENTAL_FEATURES_UPDATE: u32 = 1 << 24;

/// Every action there is: the 25 lowest bits.
pub const ALL: u32 = 0x1ff_ffff;

/// A set of actions, one bit each.
#[derive(Copy, Clone, Debug, PartialEq, Eq, Structural, Hash, PartialOrd, Ord)]
pub struct Action {
    bits: u32,
}

/// Whether the bits are those of an action that has a name of its own: a single
/// action, or all the actions on one kind of thing.
pub open spec fn is_named(repr: u32) -> bool {
    repr == SEARCH || repr == DOCUMENTS_ADD || repr == DOCUMENTS_GET || repr == DOCUMENTS_DELETE
        || repr == DOCUMENTS_ALL || repr == INDEXES_CREATE || repr == INDEXES_GET || repr
        == INDEXES_UPDATE || repr == INDEXES_DELETE || repr == INDEXES_SWAP || repr == INDEXES_ALL
        || repr == TASKS_CANCEL || repr == TASKS_DELETE || repr == TASKS_GET || repr == TASKS_ALL
        || repr == SETTINGS_GET || repr == SETTINGS_UPDATE || repr == SETTINGS_ALL || repr
        == STATS_GET || repr == METRICS_GET || repr == DUMPS_CREATE || repr == SNAPSHOTS_CREATE
        || repr == VERSION || repr == KEYS_CREATE || repr == KEYS_GET || repr == KEYS_UPDATE
        || repr == KEYS_DELETE || repr == EXPERIMENTAL_FEATURES_GET || repr
        == EXPERIMENTAL_FEATURES_UPDATE || repr == ALL
}

/// The bits of the action that goes by a name in requests, if the name is one.
pub open spec fn bits_named(name: Seq<char>) -> Option<u32> {
    if name == "*"@ {
        Some(ALL)
    } else if name == "search"@ {
        Some(SEARCH)
    } else if name == "documents.*"@ {
        Some(DOCUMENTS_ALL)
    } else if name == "documents.add"@ {
        Some(DOCUMENTS_ADD)
    } else if name == "documents.get"@ {
        Some(DOCUMENTS_GET)
    } else if name == "documents.delete"@ {
        Some(DOCUMENTS_DELETE)
    } else if name == "indexes.*"@ {
        Some(INDEXES_ALL)
    } else if name == "indexes.create"@ {
        Some(INDEXES_CREATE)
    } else if name == "indexes.get"@ {
        Some(INDEXES_GET)
    } else if name == "indexes.update"@ {
        Some(INDEXES_UPDATE)
    } else if name == "indexes.delete"@ {
        Some(INDEXES_DELETE)
    } else if name == "indexes.swap"@ {
        Some(INDEXES_SWAP)
    } else if name == "tasks.*"@ {
        Some(TASKS_ALL)
    } else if name == "tasks.cancel"@ {
        Some(TASKS_CANCEL)
    } else if name == "tasks.delete"@ {
        Some(TASKS_DELETE)
    } else if name == "tasks.get"@ {
        Some(TASKS_GET)
    } else if name == "settings.*"@ {
        Some(SETTINGS_ALL)
    } else if name == "settings.get"@ {
        Some(SETTINGS_GET)
    } else if name == "settings.update"@ {
        Some(SETTINGS_UPDATE)
    } else if name == "stats.*"@ {
        Some(STATS_ALL)
    } else if name == "stats.get"@ {
        Some(STATS_GET)
    } else if name == "metrics.*"@ {
        Some(METRICS_ALL)
    } else if name == "metrics.get"@ {
        Some(METRICS_GET)
    } else if name == "dumps.*"@ {
        Some(DUMPS_ALL)
    } else if name == "dumps.create"@ {
        Some(DUMPS_CREATE)
    } else if name == "snapshots.*"@ {
        Some(SNAPSHOTS_ALL)
    } else if name == "snapshots.create"@ {
        Some(SNAPSHOTS_CREATE)
    } else if name == "version"@ {
        Some(VERSION)
    } else if name == "keys.create"@ {
        Some(KEYS_CREATE)
    } else if name == "keys.get"@ {
        Some(KEYS_GET)
    } else if name == "keys.update"@ {
        Some(KEYS_UPDATE)
    } else if name == "keys.delete"@ {
        Some(KEYS_DELETE)
    } else if name == "experimental.get"@ {
        Some(EXPERIMENTAL_FEATURES_GET)
    } else if name == "experimental.update"@ {
        Some(EXPERIMENTAL_FEATURES_UPDATE)
    } else {
        None
    }
}

/// The name by which an action goes in requests: of the names that stand for its
/// bits, the one that comes first in the list of names.
pub open spec fn name_of(bits: u32) -> Seq<char> {
    if bits == ALL {
        "*"@
    } else if bits == SEARCH {
        "search"@
    } else if bits == DOCUMENTS_ALL {
        "documents.*"@
    } else if bits == DOCUMENTS_ADD {
        "documents.add"@
    } else if bits == DOCUMENTS_GET {
        "documents.get"@
    } else if bits == DOCUMENTS_DELETE {
        "documents.delete"@
    } else if bits == INDEXES_ALL {
        "indexes.*"@
    } else if bits == INDEXES_CREATE {
        "indexes.create"@
    } else if bits == INDEXES_GET {
        "indexes.get"@
    } else if bits == INDEXES_UPDATE {
        "indexes.update"@
    } else if bits == INDEXES_DELETE {
        "indexes.delete"@
    } else if bits == INDEXES_SWAP {
        "indexes.swap"@
    } else if bits == TASKS_ALL {
        "tasks.*"@
    } else if bits == TASKS_CANCEL {
        "tasks.cancel"@
    } else if bits == TASKS_DELETE {
        "tasks.delete"@
    } else if bits == TASKS_GET {
        "tasks.get"@
    } else if bits == SETTINGS_ALL {
        "settings.*"@
    } else if bits == SETTINGS_GET {
        "settings.get"@
    } else if bits == SETTINGS_UPDATE {
        "settings.update"@
    } else if bits == STATS_ALL {
        "stats.*"@
    } else if bits == METRICS_ALL {
        "metrics.*"@
    } else if bits == DUMPS_ALL {
        "dumps.*"@
    } else if bits == SNAPSHOTS_ALL {
        "snapshots.*"@
    } else if bits == VERSION {
        "version"@
    } else if bits == KEYS_CREATE {
        "keys.create"@
    } else if bits == KEYS_GET {
        "keys.get"@
    } else if bits == KEYS_UPDATE {
        "keys.update"@
    } else if bits == KEYS_DELETE {
        "keys.delete"@
    } else if bits == EXPERIMENTAL_FEATURES_GET {
        "experimental.get"@
    } else {
        "experimental.update"@
    }
}

impl Action {
    /// The bits of the set.
    pub closed spec fn spec_bits(self) -> u32 {
        self.bits
    }

    /// The action with these bits, if they are those of a named action.
    pub fn from_repr(repr: u32) -> (r: Option<Self>)
        ensures
            r is Some <==> is_named(repr),
            r matches Some(action) ==> action.spec_bits() == repr,
    {
        if repr == SEARCH || repr == DOCUMENTS_ADD || repr == DOCUMENTS_GET || repr
            == DOCUMENTS_DELETE || repr == DOCUMENTS_ALL || repr == INDEXES_CREATE || repr
            == INDEXES_GET || repr == INDEXES_UPDATE || repr == INDEXES_DELETE || repr
            == INDEXES_SWAP || repr == INDEXES_ALL || repr == TASKS_CANCEL || repr == TASKS_DELETE
            || repr == TASKS_GET || repr == TASKS_ALL || repr == SETTINGS_GET || repr
            == SETTINGS_UPDATE || repr == SETTINGS_ALL || repr == STATS_GET || repr == METRICS_GET
            || repr == DUMPS_CREATE || repr == SNAPSHOTS_CREATE || repr == VERSION || repr
            == KEYS_CREATE || repr == KEYS_GET || repr == KEYS_UPDATE || repr == KEYS_DELETE
            || repr == EXPERIMENTAL_FEATURES_GET || repr == EXPERIMENTAL_FEATURES_UPDATE || repr
            == ALL {
            Some(Action { bits: repr })
        } else {
            None
        }
    }

    /// The bits of the set.
    pub fn repr(&self) -> (r: u32)
        ensures
            r == self.spec_bits(),
    {
        self.bits
    }

    /// The bits of the set.
    pub fn bits(&self) -> (r: u32)
        ensures
            r == self.spec_bits(),
    {
        self.bits
    }

    /// Whether every action of `other` is in this set.
    pub fn contains(&self, other: &Action) -> (r: bool)
        ensures
            r == (self.spec_bits() & other.spec_bits() == other.spec_bits()),
    {
        self.bits & other.bits == other.bits
    }

    /// The action that goes by a name in requests.
    pub fn get_action(v: &str) -> (r: Option<Action>)
        ensures
            match r {
                Some(action) => bits_named(v@) == Some(action.spec_bits()),
                None => bits_named(v@) is None,
            },
    {
        let bits = if text_equal(v, "*") {
            ALL
        } else if text_equal(v, "search") {
            SEARCH
        } else if text_equal(v, "documents.*") {
            DOCUMENTS_ALL
        } else if text_equal(v, "documents.add") {
            DOCUMENTS_ADD
        } else if text_equal(v, "documents.get") {
            DOCUMENTS_GET
        } else if text_equal(v, "documents.delete") {
            DOCUMENTS_DELETE
        } else if text_equal(v, "indexes.*") {
            INDEXES_ALL
        } else if text_equal(v, "indexes.create") {
            INDEXES_CREATE
        } else if text_equal(v, "indexes.get") {
            INDEXES_GET
        } else if text_equal(v, "indexes.update") {
            INDEXES_UPDATE
        } else if text_equal(v, "indexes.delete") {
            INDEXES_DELETE
        } else if text_equal(v, "indexes.swap") {
            INDEXES_SWAP
        } else if text_equal(v, "tasks.*") {
            TASKS_ALL
        } else if text_equal(v, "tasks.cancel") {
            TASKS_CANCEL
        } else if text_equal(v, "tasks.delete") {
            TASKS_DELETE
        } else if text_equal(v, "tasks.get") {
            TASKS_GET
        } else if text_equal(v, "settings.*") {
            SETTINGS_ALL
        } else if text_equal(v, "settings.get") {
            SETTINGS_GET
        } else if text_equal(v, "settings.update") {
            SETTINGS_UPDATE
        } else if text_equal(v, "stats.*") {
            STATS_ALL
        } else if text_equal(v, "stats.get") {
            STATS_GET
        } else if text_equal(v, "metrics.*") {
            METRICS_ALL
        } else if text_equal(v, "metrics.get") {
            METRICS_GET
        } else if text_equal(v, "dumps.*") {
            DUMPS_ALL
        } else if text_equal(v, "dumps.create") {
            DUMPS_CREATE
        } else if text_equal(v, "snapshots.*") {
            SNAPSHOTS_ALL
        } else if text_equal(v, "snapshots.create") {
            SNAPSHOTS_CREATE
        } else if text_equal(v, "version") {
            VERSION
        } else if text_equal(v, "keys.create") {
            KEYS_CREATE
        } else if text_equal(v, "keys.get") {
            KEYS_GET
        } else if text_equal(v, "keys.update") {
            KEYS_UPDATE
        } else if text_equal(v, "keys.delete") {
            KEYS_DELETE
        } else if text_equal(v, "experimental.get") {
            EXPERIMENTAL_FEATURES_GET
        } else if text_equal(v, "experimental.update") {
            EXPERIMENTAL_FEATURES_UPDATE
        } else {
            return None;
        };
        Some(Action { bits })
    }

    /// The name by which a named action goes in requests.
    pub fn get_action_serde_name(v: &Action) -> (r: &'static str)
        requires
            is_named(v.spec_bits()),
        ensures
            r@ == name_of(v.spec_bits()),
    {
        let bits = v.bits;
        if bits == ALL {
            "*"
        } else if bits == SEARCH {
            "search"
        } else if bits == DOCUMENTS_ALL {
            "documents.*"
        } else if bits == DOCUMENTS_ADD {
            "documents.add"
        } else if bits == DOCUMENTS_GET {
            "documents.get"
        } else if bits == DOCUMENTS_DELETE {
            "documents.delete"
        } else if bits == INDEXES_ALL {
            "indexes.*"
        } else if bits == INDEXES_CREATE {
            "indexes.create"
        } else if bits == INDEXES_GET {
            "indexes.get"
        } else if bits == INDEXES_UPDATE {
            "indexes.update"
        } else if bits == INDEXES_DELETE {
            "indexes.delete"
        } else if bits == INDEXES_SWAP {
            "indexes.swap"
        } else if bits == TASKS_ALL {
            "tasks.*"
        } else if bits == TASKS_CANCEL {
            "tasks.cancel"
        } else if bits == TASKS_DELETE {
            "tasks.delete"
        } else if bits == TASKS_GET {
            "tasks.get"
        } else if bits == SETTINGS_ALL {
            "settings.*"
        } else if bits == SETTINGS_GET {
            "settings.get"
        } else if bits == SETTINGS_UPDATE {
            "settings.update"
        } else if bits == STATS_ALL {
            "stats.*"
        } else if bits == METRICS_ALL {
            "metrics.*"
        } else if bits == DUMPS_ALL {
            "dumps.*"
        } else if bits == SNAPSHOTS_ALL {
            "snapshots.*"
        } else if bits == VERSION {
            "version"
        } else if bits == KEYS_CREATE {
            "keys.create"
        } else if bits == KEYS_GET {
            "keys.get"
        } else if bits == KEYS_UPDATE {
            "keys.update"
        } else if bits == KEYS_DELETE {
            "keys.delete"
        } else if bits == EXPERIMENTAL_FEATURES_GET {
            "experimental.get"
        } else {
            "experimental.update"
        }
    }
}

/// The action on all documents is the three actions on documents together, and
/// likewise for indexes, tasks and settings; all actions together are the 25
/// lowest bits.
pub proof fn lemma_groups()
    ensures
        DOCUMENTS_ALL == DOCUMENTS_ADD | DOCUMENTS_GET | DOCUMENTS_DELETE,
        INDEXES_ALL == INDEXES_CREATE | INDEXES_GET | INDEXES_UPDATE | INDEXES_DELETE
            | INDEXES_SWAP,
        TASKS_ALL == TASKS_CANCEL | TASKS_DELETE | TASKS_GET,
        SETTINGS_ALL == SETTINGS_GET | SETTINGS_UPDATE,
        ALL == (1u32 << 25) - 1,
{
    assert(0xeu32 == (1u32 << 1) | (1u32 << 2) | (1u32 << 3)) by (bit_vector);
    assert(0x1f0u32 == (1u32 << 4) | (1u32 << 5) | (1u32 << 6) | (1u32 << 7) | (1u32 << 8))
        by (bit_vector);
    assert(0xe00u32 == (1u32 << 9) | (1u32 << 10) | (1u32 << 11)) by (bit_vector);
    assert(0x3000u32 == (1u32 << 12) | (1u32 << 13)) by (bit_vector);
    assert(0x1ff_ffffu32 == ((1u32 << 25) - 1) as u32) by (bit_vector);
    assert((1u32 << 25) == 0x200_0000u32) by (bit_vector);
}

/// A value that a request may set, reset or leave alone.
#[derive(Clone, Copy, Debug, PartialEq, Eq, Hash)]
pub enum Setting<T> {
    Value(T),
    Reset,
    NotSet,
}

/// What a request that gives a field, gives it as null, or leaves it out asks for.
pub fn option_to_setting<T>(opt: Option<Option<T>>) -> (r: Setting<T>)
    ensures
        match opt {
            Some(Some(t)) => r == Setting::Value(t),
            None => r is NotSet,
            Some(None) => r is Reset,
        },
{
    match opt {
        Some(Some(t)) => Setting::Value(t),
        None => Setting::NotSet,
        Some(None) => Setting::Reset,
    }
}

/// What may be changed of an API key once it exists.
#[derive(Debug)]
pub struct PatchApiKey {
    pub description: Setting<String>,
    pub name: Setting<String>,
}

/// The fields of an API key that may never change.
pub open spec fn is_immutable_field(field: Seq<char>) -> bool {
    field == "uid"@ || field == "actions"@ || field == "indexes"@ || field == "expiresAt"@
        || field == "createdAt"@ || field == "updatedAt"@
}

/// Whether a field that a patch may not name is one that may never change, rather
/// than one that does not exist.
pub fn deny_immutable_fields_api_key(field: &str) -> (r: bool)
    ensures
        r == is_immutable_field(field@),
{
    text_equal(field, "uid") || text_equal(field, "actions") || text_equal(field, "indexes")
        || text_equal(field, "expiresAt") || text_equal(field, "createdAt") || text_equal(
        field,
        "updatedAt",
    )
}

} // verus!
