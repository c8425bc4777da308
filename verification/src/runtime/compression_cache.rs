//! Drafts of the requests that were served last.
use vstd::prelude::*;
use crate::config::profile::ProfileDefinition;
use crate::runtime::draft;
use crate::runtime::draft::CompressionDraft;
use crate::text;
use crate::types;
use crate::types::{CompressionConstraints, CompressionRequest, RequestSource};

verus! {

/// The number of drafts that are kept.
pub const MAX_COMPRESSION_CACHE_ENTRIES: usize = 16;

/// Everything that the draft of a request depends on.
#[derive(Debug, Clone, PartialEq, Eq)]
pub struct CompressionCacheKey {
    input_text: String,
    compression_level: u8,
    request_profile: String,
    profile_id: String,
    model_ref: String,
    policy_ref: String,
    runtime_ref: String,
    constraints: CompressionConstraints,
    target_destination: String,
    tokenizer_profile: String,
    source: RequestSource,
}

/// Contents of a [`CompressionCacheKey`].
pub struct KeyView {
    pub request: types::RequestView,
    pub profile_id: Seq<char>,
    pub model_ref: Seq<char>,
    pub policy_ref: Seq<char>,
    pub runtime_ref: Seq<char>,
}

impl View for CompressionCacheKey {
    type V = KeyView;

    closed spec fn view(&self) -> KeyView {
        KeyView {
            request: types::RequestView {
                input_text: self.input_text@,
                level: self.compression_level,
                profile: self.request_profile@,
                constraints: self.constraints,
                destination: self.target_destination@,
                tokenizer_profile: self.tokenizer_profile@,
                source: self.source,
            },
            profile_id: self.profile_id@,
            model_ref: self.model_ref@,
            policy_ref: self.policy_ref@,
            runtime_ref: self.runtime_ref@,
        }
    }
}

impl CompressionCacheKey {
    /// The key of a request that is served under a profile.
    pub fn new(request: &CompressionRequest, profile: &ProfileDefinition) -> (r: CompressionCacheKey)
        ensures
            r@ == (KeyView {
                request: request@,
                profile_id: profile@.id,
                model_ref: profile@.model_ref,
                policy_ref: profile@.policy_ref,
                runtime_ref: profile@.runtime_ref,
            }),
    {
        CompressionCacheKey {
            input_text: request.input_text.clone(),
            compression_level: request.compression_level.value(),
            request_profile: request.profile.clone(),
            profile_id: profile.id.clone(),
            model_ref: profile.model_ref.clone(),
            policy_ref: profile.policy_ref.clone(),
            runtime_ref: profile.runtime_ref.clone(),
            constraints: request.constraints,
            target_destination: request.target.destination.clone(),
            tokenizer_profile: request.target.tokenizer_profile.clone(),
            source: request.source,
        }
    }

    /// Whether the keys are the same.
    pub fn same_as(&self, other: &CompressionCacheKey) -> (r: bool)
        ensures
            r == (self@ == other@),
    {
        text::same(&self.input_text, &other.input_text) && self.compression_level
            == other.compression_level && text::same(&self.request_profile, &other.request_profile)
            && text::same(&self.profile_id, &other.profile_id) && text::same(
            &self.model_ref,
            &other.model_ref,
        ) && text::same(&self.policy_ref, &other.policy_ref) && text::same(
            &self.runtime_ref,
            &other.runtime_ref,
        ) && self.constraints == other.constraints && text::same(
            &self.target_destination,
            &other.target_destination,
        ) && text::same(&self.tokenizer_profile, &other.tokenizer_profile) && self.source
            == other.source
    }
}

/// The contents of entries, from that which was used longest ago to that which was used last.
pub open spec fn entry_views(entries: Seq<(CompressionCacheKey, CompressionDraft)>) -> Seq<
    (KeyView, draft::DraftView),
> {
    entries.map_values(|entry: (CompressionCacheKey, CompressionDraft)| (entry.0@, entry.1@))
}

/// The first position with the key, where there is one.
pub open spec fn position_of(entries: Seq<(KeyView, draft::DraftView)>, key: KeyView) -> Option<int>
    decreases entries.len(),
{
    if entries.len() == 0 {
        None
    } else {
        match position_of(entries.drop_last(), key) {
            Some(i) => Some(i),
            None => if entries.last().0 == key {
                Some(entries.len() - 1)
            } else {
                None
            },
        }
    }
}

/// No key stands in two entries.
pub open spec fn keys_differ(entries: Seq<(KeyView, draft::DraftView)>) -> bool {
    forall|i: int, j: int|
        0 <= i < j < entries.len() ==> (#[trigger] entries[i]).0 != (#[trigger] entries[j]).0
}

/// The entries after the one with the key was used, if there is one: it comes last.
pub open spec fn after_get(entries: Seq<(KeyView, draft::DraftView)>, key: KeyView) -> Seq<
    (KeyView, draft::DraftView),
> {
    match position_of(entries, key) {
        Some(i) => entries.remove(i).push(entries[i]),
        None => entries,
    }
}

/// The entries without the one with the key.
pub open spec fn without(entries: Seq<(KeyView, draft::DraftView)>, key: KeyView) -> Seq<
    (KeyView, draft::DraftView),
> {
    match position_of(entries, key) {
        Some(i) => entries.remove(i),
        None => entries,
    }
}

/// The last entries, fewer than may be kept.
pub open spec fn with_room(entries: Seq<(KeyView, draft::DraftView)>) -> Seq<
    (KeyView, draft::DraftView),
> {
    if entries.len() < MAX_COMPRESSION_CACHE_ENTRIES {
        entries
    } else {
        entries.skip(entries.len() - MAX_COMPRESSION_CACHE_ENTRIES + 1)
    }
}

/// The entries after a draft was put in under a key.
pub open spec fn after_insert(
    entries: Seq<(KeyView, draft::DraftView)>,
    key: KeyView,
    value: draft::DraftView,
) -> Seq<(KeyView, draft::DraftView)> {
    with_room(without(entries, key)).push((key, value))
}

/// What the position of a key says of the entries.
proof fn position_fits(entries: Seq<(KeyView, draft::DraftView)>, key: KeyView)
    ensures
        match position_of(entries, key) {
            Some(i) => 0 <= i < entries.len() && entries[i].0 == key && forall|j: int|
                0 <= j < i ==> (#[trigger] entries[j]).0 != key,
            None => forall|j: int|
                0 <= j < entries.len() ==> (#[trigger] entries[j]).0 != key,
        },
    decreases entries.len(),
{
    if entries.len() > 0 {
        let shorter = entries.drop_last();
        position_fits(shorter, key);
        match position_of(entries, key) {
            Some(i) => {
                assert forall|j: int| 0 <= j < i implies (#[trigger] entries[j]).0 != key by {
                    assert(entries[j] == shorter[j]);
                }
            },
            None => {
                assert forall|j: int| 0 <= j < entries.len() implies (#[trigger] entries[j]).0
                    != key by {
                    if j < entries.len() - 1 {
                        assert(entries[j] == shorter[j]);
                    }
                }
            },
        }
    }
}

/// A position that holds a key, with none before it, is the position of the key.
proof fn position_is(entries: Seq<(KeyView, draft::DraftView)>, key: KeyView, i: int)
    requires
        0 <= i < entries.len(),
        entries[i].0 == key,
        forall|j: int| 0 <= j < i ==> (#[trigger] entries[j]).0 != key,
    ensures
        position_of(entries, key) == Some(i),
{
    position_fits(entries, key);
}

/// The drafts of the requests that were served last.
#[derive(Debug)]
pub struct CompressionDraftCache {
    entries: Vec<(CompressionCacheKey, CompressionDraft)>,
}

impl View for CompressionDraftCache {
    type V = Seq<(KeyView, draft::DraftView)>;

    /// The entries, from that which was used longest ago to that which was used last.
    closed spec fn view(&self) -> Seq<(KeyView, draft::DraftView)> {
        entry_views(self.entries@)
    }
}

impl Default for CompressionDraftCache {
    /// Nothing is kept at first.
    fn default() -> (r: Self)
        ensures
            r@ == Seq::<(KeyView, draft::DraftView)>::empty(),
    {
        let entries: Vec<(CompressionCacheKey, CompressionDraft)> = Vec::new();
        assert(entry_views(entries@) =~= Seq::empty());
        CompressionDraftCache { entries }
    }
}

impl CompressionDraftCache {
    /// So many drafts are kept, each under a key of its own.
    #[verifier::type_invariant]
    spec fn well_formed(self) -> bool {
        self@.len() <= MAX_COMPRESSION_CACHE_ENTRIES && keys_differ(self@)
    }

    /// The number of drafts. Never more are kept than may be, nor two under one key.
    pub fn len(&self) -> (r: usize)
        ensures
            r == self@.len(),
            r <= MAX_COMPRESSION_CACHE_ENTRIES,
            keys_differ(self@),
    {
        proof {
            use_type_invariant(self);
        }
        self.entries.len()
    }

    /// The position of the key, where there is one.
    fn find(&self, key: &CompressionCacheKey) -> (r: Option<usize>)
        ensures
            match r {
                Some(i) => i < self.entries@.len() && position_of(self@, key@) == Some(i as int),
                None => position_of(self@, key@) is None,
            },
    {
        let ghost entries = entry_views(self.entries@);
        let mut i: usize = 0;
        while i < self.entries.len()
            invariant
                i <= self.entries@.len(),
                entries == entry_views(self.entries@),
                forall|j: int| 0 <= j < i ==> (#[trigger] entries[j]).0 != key@,
            decreases self.entries@.len() - i,
        {
            assert(entries[i as int].0 == self.entries@[i as int].0@);
            if self.entries[i].0.same_as(key) {
                proof {
                    position_is(entries, key@, i as int);
                }
                return Some(i);
            }
            i = i + 1;
        }
        proof {
            position_fits(entries, key@);
        }
        None
    }

    /// The draft under the key, where there is one. It then counts as used last.
    pub fn get(&mut self, key: &CompressionCacheKey) -> (r: Option<CompressionDraft>)
        ensures
            final(self)@ == after_get(old(self)@, key@),
            match r {
                Some(value) => position_of(old(self)@, key@) matches Some(i) && value@ == old(
                    self,
                )@[i].1,
                None => position_of(old(self)@, key@) is None,
            },
    {
        let found: Option<usize> = self.find(key);
        proof {
            use_type_invariant(&*self);
            position_fits(self@, key@);
        }
        match found {
            None => None,
            Some(i) => {
                let ghost before = self.entries@;
                let mut entries: Vec<(CompressionCacheKey, CompressionDraft)> = Vec::new();
                assert(entry_views(entries@) =~= Seq::empty());
                std::mem::swap(&mut entries, &mut self.entries);
                let entry: (CompressionCacheKey, CompressionDraft) = entries.remove(i);
                let value: CompressionDraft = entry.1.clone();
                entries.push(entry);
                proof {
                    assert(entry_views(entries@) =~= after_get(entry_views(before), key@));
                }
                self.entries = entries;
                Some(value)
            },
        }
    }

    /// Keeps the draft under the key, in place of one that was there. Where there is no room, the
    /// drafts that were used longest ago are dropped.
    pub fn insert(&mut self, key: CompressionCacheKey, value: CompressionDraft)
        ensures
            final(self)@ == after_insert(old(self)@, key@, value@),
    {
        let found: Option<usize> = self.find(&key);
        proof {
            use_type_invariant(&*self);
            position_fits(self@, key@);
        }
        let ghost before = entry_views(self.entries@);
        let ghost name = key@;
        let ghost contents = value@;
        let mut entries: Vec<(CompressionCacheKey, CompressionDraft)> = Vec::new();
        assert(entry_views(entries@) =~= Seq::empty());
        std::mem::swap(&mut entries, &mut self.entries);
        match found {
            Some(i) => {
                let dropped: (CompressionCacheKey, CompressionDraft) = entries.remove(i);
                assert(entry_views(entries@) =~= before.remove(i as int));
            },
            None => {},
        }
        let ghost kept = without(before, name);
        assert(entry_views(entries@) == kept);
        assert forall|j: int| 0 <= j < kept.len() implies (#[trigger] kept[j]).0 != name by {
            match position_of(before, name) {
                Some(i) => {
                    assert(kept[j] == before[if j < i {
                        j
                    } else {
                        j + 1
                    }]);
                },
                None => {},
            }
        }
        if entries.len() >= MAX_COMPRESSION_CACHE_ENTRIES {
            let oldest: (CompressionCacheKey, CompressionDraft) = entries.remove(0);
            assert(entry_views(entries@) =~= with_room(kept));
        }
        entries.push((key, value));
        assert(entry_views(entries@) =~= after_insert(before, name, contents));
        self.entries = entries;
    }
}

/// What was put in is found under its key, and counts as used last.
pub proof fn inserted_draft_is_found(
    entries: Seq<(KeyView, draft::DraftView)>,
    key: KeyView,
    value: draft::DraftView,
)
    requires
        keys_differ(entries),
        entries.len() <= MAX_COMPRESSION_CACHE_ENTRIES,
    ensures
        ({
            let after = after_insert(entries, key, value);
            position_of(after, key) == Some(after.len() - 1) && after.last() == (key, value)
        }),
{
    let after = after_insert(entries, key, value);
    let kept = without(entries, key);
    position_fits(entries, key);
    assert forall|j: int| 0 <= j < after.len() - 1 implies (#[trigger] after[j]).0 != key by {
        let shift = kept.len() - (after.len() - 1);
        assert(after[j] == kept[j + shift]);
        match position_of(entries, key) {
            Some(i) => {
                assert(kept[j + shift] == entries[if j + shift < i {
                    j + shift
                } else {
                    j + shift + 1
                }]);
            },
            None => {
                assert(kept[j + shift] == entries[j + shift]);
            },
        }
    }
    position_is(after, key, after.len() - 1);
}

/// A draft under a new key takes the place of the one that was used longest ago where as many are
/// kept as may be, and of none otherwise; the others stay in their order.
pub proof fn least_recently_used_is_dropped(
    entries: Seq<(KeyView, draft::DraftView)>,
    key: KeyView,
    value: draft::DraftView,
)
    requires
        entries.len() <= MAX_COMPRESSION_CACHE_ENTRIES,
        position_of(entries, key) is None,
    ensures
        after_insert(entries, key, value) == (if entries.len() == MAX_COMPRESSION_CACHE_ENTRIES {
            entries.skip(1)
        } else {
            entries
        }).push((key, value)),
{
}

/// Using a draft drops none and changes none: every entry is still there, and no other.
pub proof fn reading_keeps_entries(
    entries: Seq<(KeyView, draft::DraftView)>,
    key: KeyView,
    entry: (KeyView, draft::DraftView),
)
    ensures
        after_get(entries, key).contains(entry) <==> entries.contains(entry),
        after_get(entries, key).len() == entries.len(),
{
    position_fits(entries, key);
    let after = after_get(entries, key);
    match position_of(entries, key) {
        Some(i) => {
            if entries.contains(entry) {
                let j = choose|j: int| 0 <= j < entries.len() && entries[j] == entry;
                if j == i {
                    assert(after[after.len() - 1] == entry);
                } else if j < i {
                    assert(after[j] == entry);
                } else {
                    assert(after[j - 1] == entry);
                }
            }
            if after.contains(entry) {
                let j = choose|j: int| 0 <= j < after.len() && after[j] == entry;
                if j == after.len() - 1 {
                    assert(entries[i] == entry);
                } else if j < i {
                    assert(entries[j] == entry);
                } else {
                    assert(entries[j + 1] == entry);
                }
            }
        },
        None => {},
    }
}

} // verus!
