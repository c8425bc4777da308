//! Profiles: which model and runtime serve a request.
use vstd::prelude::*;
use crate::config::identifiers;
use crate::contents;
use crate::error;
use crate::error::CompressionError;
use crate::parts;
use crate::text;
use crate::text_map;
use crate::text_map::TextMap;

verus! {

broadcast use crate::contents::group_contents;

/// Which model, policy and runtime serve the requests of a profile.
#[derive(Debug)]
pub struct ProfileDefinition {
    pub id: String,
    pub label: String,
    pub selectable: bool,
    pub model_ref: String,
    pub policy_ref: String,
    pub runtime_ref: String,
    pub fallback_profile: String,
    pub target_tokenizer_profile: String,
}

/// Contents of a [`ProfileDefinition`].
pub struct ProfileView {
    pub id: Seq<char>,
    pub label: Seq<char>,
    pub selectable: bool,
    pub model_ref: Seq<char>,
    pub policy_ref: Seq<char>,
    pub runtime_ref: Seq<char>,
    pub fallback_profile: Seq<char>,
    pub target_tokenizer_profile: Seq<char>,
}

impl View for ProfileDefinition {
    type V = ProfileView;

    open spec fn view(&self) -> ProfileView {
        ProfileView {
            id: self.id@,
            label: self.label@,
            selectable: self.selectable,
            model_ref: self.model_ref@,
            policy_ref: self.policy_ref@,
            runtime_ref: self.runtime_ref@,
            fallback_profile: self.fallback_profile@,
            target_tokenizer_profile: self.target_tokenizer_profile@,
        }
    }
}

impl Clone for ProfileDefinition {
    fn clone(&self) -> (r: Self)
        ensures
            r@ == self@,
    {
        ProfileDefinition {
            id: self.id.clone(),
            label: self.label.clone(),
            selectable: self.selectable,
            model_ref: self.model_ref.clone(),
            policy_ref: self.policy_ref.clone(),
            runtime_ref: self.runtime_ref.clone(),
            fallback_profile: self.fallback_profile.clone(),
            target_tokenizer_profile: self.target_tokenizer_profile.clone(),
        }
    }
}

/// A profile as a configuration file gives it, under its name.
#[derive(Debug)]
pub struct ProfileEntry {
    pub label: String,
    pub selectable: bool,
    pub model_ref: String,
    pub policy_ref: String,
    pub runtime_ref: String,
    pub fallback_profile: String,
    pub target_tokenizer_profile: String,
}

/// The profile that an entry under a name gives.
pub open spec fn profile_of_entry(id: Seq<char>, entry: ProfileEntry) -> ProfileView {
    ProfileView {
        id,
        label: entry.label@,
        selectable: entry.selectable,
        model_ref: entry.model_ref@,
        policy_ref: entry.policy_ref@,
        runtime_ref: entry.runtime_ref@,
        fallback_profile: entry.fallback_profile@,
        target_tokenizer_profile: entry.target_tokenizer_profile@,
    }
}

/// The profiles of a registry by name.
pub open spec fn profile_views(profiles: Map<Seq<char>, ProfileDefinition>) -> Map<
    Seq<char>,
    ProfileView,
> {
    Map::new(|id: Seq<char>| profiles.contains_key(id), |id: Seq<char>| profiles[id]@)
}

/// Every profile stands under its own name, and the fallback of each is a profile.
pub open spec fn profiles_are_closed(profiles: Map<Seq<char>, ProfileView>) -> bool {
    forall|id: Seq<char>| #[trigger]
        profiles.contains_key(id) ==> profiles[id].id == id && profiles.contains_key(
            profiles[id].fallback_profile,
        )
}

/// The profiles among the names that can be selected, in their order.
pub open spec fn selectable_profiles(
    ids: Seq<Seq<char>>,
    profiles: Map<Seq<char>, ProfileView>,
) -> Seq<ProfileView>
    decreases ids.len(),
{
    if ids.len() == 0 {
        Seq::empty()
    } else {
        let before = selectable_profiles(ids.drop_last(), profiles);
        if profiles[ids.last()].selectable {
            before.push(profiles[ids.last()])
        } else {
            before
        }
    }
}

/// The profile that serves requests which name none: the given one where it can be selected, else
/// the first that can be.
pub open spec fn spec_default_profile_id(
    default_profile: Option<Seq<char>>,
    ids: Seq<Seq<char>>,
    profiles: Map<Seq<char>, ProfileView>,
) -> Option<Seq<char>> {
    let usable = match default_profile {
        Some(id) => profiles.contains_key(id) && profiles[id].selectable,
        None => false,
    };
    if usable {
        default_profile
    } else {
        let selectable = selectable_profiles(ids, profiles);
        if selectable.len() > 0 {
            Some(selectable[0].id)
        } else {
            None
        }
    }
}

/// The contents of profiles.
pub open spec fn listed_views(list: Seq<&ProfileDefinition>) -> Seq<ProfileView> {
    list.map_values(|profile: &ProfileDefinition| profile@)
}

/// The name of the profile whose model runs inside the application.
pub const INTERNAL_PROFILE: &'static str = "internal_llm";

/// The name of the profile that is served by LM Studio.
pub const LMSTUDIO_PROFILE: &'static str = "lmstudio_local";

/// The profile whose model runs inside the application.
pub open spec fn internal_profile_view() -> ProfileView {
    ProfileView {
        id: INTERNAL_PROFILE@,
        label: "アプリ内モデル（Sarashina 2.2 3B）"@,
        selectable: true,
        model_ref: "sarashina_2_2_3b_instruct_q4_k_s"@,
        policy_ref: "balanced-codex-compression-policy-v1"@,
        runtime_ref: "llama_cpp_embedded"@,
        fallback_profile: INTERNAL_PROFILE@,
        target_tokenizer_profile: "codex_default"@,
    }
}

/// The profile that is served by LM Studio.
pub open spec fn lmstudio_profile_view() -> ProfileView {
    ProfileView {
        id: LMSTUDIO_PROFILE@,
        label: "LM Studio（ローカルモデル自由選択）"@,
        selectable: true,
        model_ref: "lmstudio_local_model"@,
        policy_ref: "balanced-codex-compression-policy-v1"@,
        runtime_ref: "lmstudio_external"@,
        fallback_profile: LMSTUDIO_PROFILE@,
        target_tokenizer_profile: "codex_default"@,
    }
}

fn internal_profile() -> (r: ProfileDefinition)
    ensures
        r@ == internal_profile_view(),
{
    ProfileDefinition {
        id: INTERNAL_PROFILE.to_owned(),
        label: "アプリ内モデル（Sarashina 2.2 3B）".to_owned(),
        selectable: true,
        model_ref: "sarashina_2_2_3b_instruct_q4_k_s".to_owned(),
        policy_ref: "balanced-codex-compression-policy-v1".to_owned(),
        runtime_ref: "llama_cpp_embedded".to_owned(),
        fallback_profile: INTERNAL_PROFILE.to_owned(),
        target_tokenizer_profile: "codex_default".to_owned(),
    }
}

fn lmstudio_profile() -> (r: ProfileDefinition)
    ensures
        r@ == lmstudio_profile_view(),
{
    ProfileDefinition {
        id: LMSTUDIO_PROFILE.to_owned(),
        label: "LM Studio（ローカルモデル自由選択）".to_owned(),
        selectable: true,
        model_ref: "lmstudio_local_model".to_owned(),
        policy_ref: "balanced-codex-compression-policy-v1".to_owned(),
        runtime_ref: "lmstudio_external".to_owned(),
        fallback_profile: LMSTUDIO_PROFILE.to_owned(),
        target_tokenizer_profile: "codex_default".to_owned(),
    }
}

/// The first name from a position on whose fallback is no entry.
pub open spec fn first_dangling(
    ids: Seq<Seq<char>>,
    entries: Map<Seq<char>, ProfileEntry>,
    i: int,
) -> Option<Seq<char>>
    decreases ids.len() - i,
{
    if i >= ids.len() {
        None
    } else if !entries.contains_key(entries[ids[i]].fallback_profile@) {
        Some(ids[i])
    } else {
        first_dangling(ids, entries, i + 1)
    }
}

/// What is wrong with the entries of a catalogue of profiles, if anything is.
pub open spec fn catalogue_fault(
    schema_version: u32,
    default_profile: Option<Seq<char>>,
    ids: Seq<Seq<char>>,
    entries: Map<Seq<char>, ProfileEntry>,
) -> Option<Seq<char>> {
    if schema_version != 1 {
        Some("unsupported profiles schema_version: "@ + text::spec_decimal(schema_version as nat))
    } else if identifiers::spec_first_unusable(ids, 0) is Some {
        Some("profile id cannot be empty or contain control characters"@)
    } else if ids.len() == 0 {
        Some("profile catalog must define at least one profile"@)
    } else if default_profile is Some && !entries.contains_key(default_profile->0) {
        Some("default profile '"@ + default_profile->0 + "' is not defined"@)
    } else {
        match first_dangling(ids, entries, 0) {
            Some(id) => Some(
                "profile '"@ + id + "' references unknown fallback profile '"@
                    + entries[id].fallback_profile@ + "'"@,
            ),
            None => None,
        }
    }
}

/// The profiles that a program offers.
#[derive(Debug)]
pub struct ProfileRegistry {
    profiles: TextMap<ProfileDefinition>,
    default_profile: Option<String>,
}

impl Clone for ProfileRegistry {
    /// The same profiles.
    fn clone(&self) -> (r: Self)
        ensures
            r.profiles() == self.profiles(),
            r.ids() == self.ids(),
            r.preferred() == self.preferred(),
    {
        proof {
            use_type_invariant(self);
        }
        let profiles: TextMap<ProfileDefinition> = self.profiles.clone();
        assert(profile_views(profiles@) =~= profile_views(self.profiles@));
        let default_profile: Option<String> = match &self.default_profile {
            Some(id) => Some(id.clone()),
            None => None,
        };
        ProfileRegistry { profiles, default_profile }
    }
}

impl ProfileRegistry {
    /// Every profile stands under its own name, and the fallback of each is a profile.
    #[verifier::type_invariant]
    spec fn well_formed(self) -> bool {
        profiles_are_closed(profile_views(self.profiles@))
    }

    /// The profiles by name.
    pub closed spec fn profiles(&self) -> Map<Seq<char>, ProfileView> {
        profile_views(self.profiles@)
    }

    /// The names of the profiles in order.
    pub closed spec fn ids(&self) -> Seq<Seq<char>> {
        self.profiles.keys()
    }

    /// The name of the profile that the configuration prefers.
    pub closed spec fn preferred(&self) -> Option<Seq<char>> {
        contents::view_option(self.default_profile)
    }

    /// The profiles that are offered where no configuration gives others.
    pub fn bootstrap() -> (r: ProfileRegistry)
        ensures
            r.profiles() == map![
                INTERNAL_PROFILE@ => internal_profile_view(),
                LMSTUDIO_PROFILE@ => lmstudio_profile_view()
            ],
            r.preferred() == Some(INTERNAL_PROFILE@),
    {
        let mut profiles: TextMap<ProfileDefinition> = TextMap::new();
        let internal: ProfileDefinition = internal_profile();
        let lmstudio: ProfileDefinition = lmstudio_profile();
        let replaced: Option<ProfileDefinition> = profiles.insert(internal.id.clone(), internal);
        let replaced: Option<ProfileDefinition> = profiles.insert(lmstudio.id.clone(), lmstudio);
        proof {
            assert(profile_views(profiles@) =~= map![
                INTERNAL_PROFILE@ => internal_profile_view(),
                LMSTUDIO_PROFILE@ => lmstudio_profile_view()
            ]) by {
                if INTERNAL_PROFILE@ == LMSTUDIO_PROFILE@ {
                    reveal_strlit("internal_llm");
                    reveal_strlit("lmstudio_local");
                    assert("internal_llm"@[0] == "lmstudio_local"@[0]);
                }
            }
        }
        ProfileRegistry { profiles, default_profile: Some(INTERNAL_PROFILE.to_owned()) }
    }

    /// The profiles that a configuration file gives, unless it contradicts itself.
    #[verifier::loop_isolation(false)]
    pub fn from_entries(
        schema_version: u32,
        default_profile: Option<String>,
        entries: &TextMap<ProfileEntry>,
    ) -> (r: Result<ProfileRegistry, CompressionError>)
        ensures
            match r {
                Ok(registry) => catalogue_fault(
                    schema_version,
                    contents::view_option(default_profile),
                    entries.keys(),
                    entries@,
                ) is None && registry.preferred() == contents::view_option(default_profile)
                    && registry.profiles() == Map::new(
                    |id: Seq<char>| entries@.contains_key(id),
                    |id: Seq<char>| profile_of_entry(id, entries@[id]),
                ),
                Err(error) => catalogue_fault(
                    schema_version,
                    contents::view_option(default_profile),
                    entries.keys(),
                    entries@,
                ) matches Some(reason) && error@ == error::ErrorView::InvalidConfig(reason),
            },
    {
        if schema_version != 1 {
            return Err(
                CompressionError::InvalidConfig(
                    text::concat2(
                        "unsupported profiles schema_version: ",
                        &text::decimal(schema_version as u64),
                    ),
                ),
            );
        }
        let total: usize = entries.len();
        let mut i: usize = 0;
        while i < total
            invariant
                i <= total,
                total == entries.keys().len(),
                identifiers::spec_first_unusable(entries.keys(), 0)
                    == identifiers::spec_first_unusable(entries.keys(), i as int),
            decreases total - i,
        {
            if !identifiers::is_usable_id(entries.key_at(i)) {
                return Err(
                    CompressionError::InvalidConfig(
                        "profile id cannot be empty or contain control characters".to_owned(),
                    ),
                );
            }
            i = i + 1;
        }
        if total == 0 {
            return Err(
                CompressionError::InvalidConfig(
                    "profile catalog must define at least one profile".to_owned(),
                ),
            );
        }
        match &default_profile {
            Some(id) => {
                if !entries.contains_key(id) {
                    return Err(
                        CompressionError::InvalidConfig(
                            text::concat3("default profile '", id, "' is not defined"),
                        ),
                    );
                }
            },
            None => {},
        }
        let mut profiles: TextMap<ProfileDefinition> = TextMap::new();
        let ghost ids = entries.keys();
        let mut i: usize = 0;
        assert(ids.take(0) =~= Seq::empty());
        while i < total
            invariant
                i <= total,
                total == ids.len(),
                ids == entries.keys(),
                first_dangling(ids, entries@, 0) == first_dangling(ids, entries@, i as int),
                forall|id: Seq<char>| #[trigger]
                    profiles@.contains_key(id) <==> ids.take(i as int).contains(id),
                forall|id: Seq<char>| #[trigger]
                    profiles@.contains_key(id) ==> entries@.contains_key(id) && profiles@[id]@
                        == profile_of_entry(id, entries@[id]) && entries@.contains_key(
                        entries@[id].fallback_profile@,
                    ),
            decreases total - i,
        {
            let id: &String = entries.key_at(i);
            let entry: &ProfileEntry = entries.value_at(i);
            if !entries.contains_key(&entry.fallback_profile) {
                return Err(
                    CompressionError::InvalidConfig(
                        text::concat5(
                            "profile '",
                            id,
                            "' references unknown fallback profile '",
                            &entry.fallback_profile,
                            "'",
                        ),
                    ),
                );
            }
            let profile: ProfileDefinition = ProfileDefinition {
                id: id.clone(),
                label: entry.label.clone(),
                selectable: entry.selectable,
                model_ref: entry.model_ref.clone(),
                policy_ref: entry.policy_ref.clone(),
                runtime_ref: entry.runtime_ref.clone(),
                fallback_profile: entry.fallback_profile.clone(),
                target_tokenizer_profile: entry.target_tokenizer_profile.clone(),
            };
            let replaced: Option<ProfileDefinition> = profiles.insert(id.clone(), profile);
            proof {
                assert(ids.take(i + 1) =~= ids.take(i as int).push(ids[i as int]));
                assert forall|id: Seq<char>|
                    ids.take(i + 1).contains(id) <==> (ids.take(i as int).contains(id) || id
                        == ids[i as int]) by {
                    let shorter = ids.take(i as int);
                    let longer = ids.take(i + 1);
                    if shorter.contains(id) {
                        assert(longer[shorter.index_of(id)] == id);
                    }
                    assert(longer[i as int] == ids[i as int]);
                    if longer.contains(id) {
                        let k = longer.index_of(id);
                        if k < i {
                            assert(shorter[k] == id);
                        }
                    }
                }
            }
            i = i + 1;
        }
        proof {
            assert(ids.take(total as int) =~= ids);
            assert(profile_views(profiles@) =~= Map::new(
                |id: Seq<char>| entries@.contains_key(id),
                |id: Seq<char>| profile_of_entry(id, entries@[id]),
            ));
        }
        Ok(ProfileRegistry { profiles, default_profile })
    }

    /// The profile with the name, where there is one. Its fallback is a profile too.
    pub fn resolve(&self, id: &str) -> (r: Result<&ProfileDefinition, CompressionError>)
        ensures
            match r {
                Ok(profile) => self.profiles().contains_key(id@) && profile@ == self.profiles()[id@]
                    && profile.id@ == id@ && self.profiles().contains_key(
                    profile.fallback_profile@,
                ),
                Err(error) => !self.profiles().contains_key(id@) && error@
                    == error::ErrorView::UnknownProfile(id@),
            },
    {
        proof {
            use_type_invariant(self);
        }
        match self.profiles.get(id) {
            Some(profile) => Ok(profile),
            None => Err(CompressionError::UnknownProfile(id.to_owned())),
        }
    }

    /// All profiles in the order of their names.
    pub fn list(&self) -> (r: Vec<&ProfileDefinition>)
        ensures
            text_map::is_sorted(self.ids()),
            forall|id: Seq<char>| self.profiles().contains_key(id) <==> self.ids().contains(id),
            listed_views(r@) == self.ids().map_values(|id: Seq<char>| self.profiles()[id]),
            listed_views(r@).map_values(|profile: ProfileView| profile.id) == self.ids(),
    {
        proof {
            use_type_invariant(self);
        }
        let mut listed: Vec<&ProfileDefinition> = Vec::new();
        let total: usize = self.profiles.len();
        let mut i: usize = 0;
        while i < total
            invariant
                i <= total,
                total == self.ids().len(),
                profiles_are_closed(self.profiles()),
                listed@.len() == i,
                forall|j: int|
                    0 <= j < i ==> #[trigger] listed@[j]@ == self.profiles()[self.ids()[j]]
                        && listed@[j].id@ == self.ids()[j],
            decreases total - i,
        {
            let profile: &ProfileDefinition = self.profiles.value_at(i);
            assert(self.profiles().contains_key(self.ids()[i as int]));
            assert(profile@ == self.profiles()[self.ids()[i as int]]);
            listed.push(profile);
            i = i + 1;
        }
        proof {
            assert(listed_views(listed@) =~= self.ids().map_values(
                |id: Seq<char>| self.profiles()[id],
            ));
            assert(listed_views(listed@).map_values(|profile: ProfileView| profile.id)
                =~= self.ids());
        }
        listed
    }

    /// The profiles that can be selected, in the order of their names.
    pub fn list_selectable(&self) -> (r: Vec<&ProfileDefinition>)
        ensures
            listed_views(r@) == selectable_profiles(self.ids(), self.profiles()),
    {
        let mut listed: Vec<&ProfileDefinition> = Vec::new();
        let total: usize = self.profiles.len();
        let mut i: usize = 0;
        assert(listed_views(listed@) =~= Seq::empty());
        while i < total
            invariant
                i <= total,
                total == self.ids().len(),
                listed_views(listed@) == selectable_profiles(
                    self.ids().take(i as int),
                    self.profiles(),
                ),
            decreases total - i,
        {
            let profile: &ProfileDefinition = self.profiles.value_at(i);
            assert(self.ids().take(i + 1).drop_last() =~= self.ids().take(i as int));
            if profile.selectable {
                let ghost before = listed_views(listed@);
                listed.push(profile);
                assert(listed_views(listed@) =~= before.push(profile@));
            }
            i = i + 1;
        }
        assert(self.ids().take(total as int) =~= self.ids());
        listed
    }

    /// The name of the profile that serves requests which name none.
    pub fn default_profile_id(&self) -> (r: Option<&str>)
        ensures
            match r {
                Some(id) => spec_default_profile_id(self.preferred(), self.ids(), self.profiles())
                    == Some(id@),
                None => spec_default_profile_id(self.preferred(), self.ids(), self.profiles())
                    is None,
            },
    {
        match &self.default_profile {
            Some(id) => {
                match self.profiles.get(id) {
                    Some(profile) => {
                        if profile.selectable {
                            return Some(id);
                        }
                    },
                    None => {},
                }
            },
            None => {},
        }
        let selectable: Vec<&ProfileDefinition> = self.list_selectable();
        if selectable.len() > 0 {
            assert(listed_views(selectable@)[0] == selectable@[0]@);
            Some(&selectable[0].id)
        } else {
            None
        }
    }
}

/// Of the profiles offered without a configuration each falls back on itself, and both can be
/// selected.
pub proof fn bootstrap_profiles_are_closed()
    ensures
        profiles_are_closed(
            map![
                INTERNAL_PROFILE@ => internal_profile_view(),
                LMSTUDIO_PROFILE@ => lmstudio_profile_view()
            ],
        ),
{
}

/// The profiles of a configuration are accepted where it is of the first version, holds a profile,
/// each name can be used, the profile that it prefers is one of them, and so is the fallback of
/// each; only there.
pub proof fn accepted_profiles(
    schema_version: u32,
    default_profile: Option<Seq<char>>,
    ids: Seq<Seq<char>>,
    entries: Map<Seq<char>, ProfileEntry>,
)
    ensures
        catalogue_fault(schema_version, default_profile, ids, entries) is None <==> {
            &&& schema_version == 1
            &&& ids.len() > 0
            &&& forall|k: int|
                0 <= k < ids.len() ==> identifiers::spec_is_usable_id(#[trigger] ids[k])
            &&& default_profile matches Some(id) ==> entries.contains_key(id)
            &&& forall|k: int|
                0 <= k < ids.len() ==> entries.contains_key(
                    entries[#[trigger] ids[k]].fallback_profile@,
                )
        },
{
    identifiers::names_are_all_usable(ids, 0);
    none_dangles(ids, entries, 0);
}

/// No profile dangles from a position on where the fallback of each is a profile.
proof fn none_dangles(ids: Seq<Seq<char>>, entries: Map<Seq<char>, ProfileEntry>, i: int)
    requires
        0 <= i,
    ensures
        first_dangling(ids, entries, i) is None <==> forall|k: int|
            i <= k < ids.len() ==> entries.contains_key(
                entries[#[trigger] ids[k]].fallback_profile@,
            ),
    decreases ids.len() - i,
{
    if i < ids.len() {
        none_dangles(ids, entries, i + 1);
    }
}

/// The profiles that are offered are those among the names that can be selected.
pub proof fn offered_profiles_can_be_selected(
    ids: Seq<Seq<char>>,
    profiles: Map<Seq<char>, ProfileView>,
    profile: ProfileView,
)
    ensures
        selectable_profiles(ids, profiles).contains(profile) <==> profile.selectable && exists|
            k: int,
        |
            0 <= k < ids.len() && profiles[#[trigger] ids[k]] == profile,
    decreases ids.len(),
{
    if ids.len() > 0 {
        let before = ids.drop_last();
        offered_profiles_can_be_selected(before, profiles, profile);
        let earlier = selectable_profiles(before, profiles);
        parts::pushed_item(earlier, profiles[ids.last()], profile);
        if exists|k: int| 0 <= k < before.len() && profiles[#[trigger] before[k]] == profile {
            let k = choose|k: int| 0 <= k < before.len() && profiles[#[trigger] before[k]] == profile;
            assert(profiles[ids[k]] == profile);
        }
        if exists|k: int| 0 <= k < ids.len() && profiles[#[trigger] ids[k]] == profile {
            let k = choose|k: int| 0 <= k < ids.len() && profiles[#[trigger] ids[k]] == profile;
            if k < before.len() {
                assert(profiles[before[k]] == profile);
            }
        }
        assert(profiles[ids[ids.len() - 1]] == profiles[ids.last()]);
    }
}

/// Requests that name no profile are served by one that can be selected: the preferred one where
/// that can be, else the first in order. No profile serves them where none can be selected, and
/// only there.
pub proof fn default_profiles_can_be_selected(
    default_profile: Option<Seq<char>>,
    ids: Seq<Seq<char>>,
    profiles: Map<Seq<char>, ProfileView>,
)
    requires
        profiles_are_closed(profiles),
        forall|k: int| 0 <= k < ids.len() ==> profiles.contains_key(#[trigger] ids[k]),
    ensures
        default_profile matches Some(id) ==> profiles.contains_key(id) && profiles[id].selectable
            ==> spec_default_profile_id(default_profile, ids, profiles) == Some(id),
        !(default_profile matches Some(id) && profiles.contains_key(id) && profiles[id].selectable)
            ==> match spec_default_profile_id(default_profile, ids, profiles) {
            Some(id) => exists|k: int|
                0 <= k < ids.len() && #[trigger] ids[k] == id && profiles[id].selectable && forall|
                    j: int,
                |
                    0 <= j < k ==> !profiles[#[trigger] ids[j]].selectable,
            None => forall|k: int|
                0 <= k < ids.len() ==> !profiles[#[trigger] ids[k]].selectable,
        },
{
    first_selectable(ids, profiles);
}

/// The first profile that is offered is the first that can be selected.
proof fn first_selectable(ids: Seq<Seq<char>>, profiles: Map<Seq<char>, ProfileView>)
    requires
        profiles_are_closed(profiles),
        forall|k: int| 0 <= k < ids.len() ==> profiles.contains_key(#[trigger] ids[k]),
    ensures
        ({
            let offered = selectable_profiles(ids, profiles);
            if offered.len() > 0 {
                exists|k: int|
                    0 <= k < ids.len() && #[trigger] ids[k] == offered[0].id
                        && profiles[ids[k]].selectable && forall|j: int|
                        0 <= j < k ==> !profiles[#[trigger] ids[j]].selectable
            } else {
                forall|k: int| 0 <= k < ids.len() ==> !profiles[#[trigger] ids[k]].selectable
            }
        }),
    decreases ids.len(),
{
    if ids.len() > 0 {
        let before = ids.drop_last();
        assert forall|k: int| 0 <= k < before.len() implies profiles.contains_key(
            #[trigger] before[k],
        ) by {
            assert(profiles.contains_key(ids[k]));
        }
        first_selectable(before, profiles);
        let earlier = selectable_profiles(before, profiles);
        let last = ids.len() - 1;
        assert(profiles.contains_key(ids[last]));
        if earlier.len() > 0 {
            let k = choose|k: int|
                0 <= k < before.len() && #[trigger] before[k] == earlier[0].id
                    && profiles[before[k]].selectable && forall|j: int|
                    0 <= j < k ==> !profiles[#[trigger] before[j]].selectable;
            assert(ids[k] == before[k]);
            assert forall|j: int| 0 <= j < k implies !profiles[#[trigger] ids[j]].selectable by {
                assert(before[j] == ids[j]);
            }
        } else {
            assert forall|j: int| 0 <= j < last implies !profiles[#[trigger] ids[j]].selectable by {
                assert(before[j] == ids[j]);
            }
            assert(ids[last] == ids.last());
        }
    }
}

/// A profile is what its entry says, under the name of the entry.
pub proof fn profiles_are_their_entries(id: Seq<char>, entry: ProfileEntry)
    ensures
        ({
            let profile = profile_of_entry(id, entry);
            &&& profile.id == id
            &&& profile.label == entry.label@
            &&& profile.selectable == entry.selectable
            &&& profile.model_ref == entry.model_ref@
            &&& profile.policy_ref == entry.policy_ref@
            &&& profile.runtime_ref == entry.runtime_ref@
            &&& profile.fallback_profile == entry.fallback_profile@
            &&& profile.target_tokenizer_profile == entry.target_tokenizer_profile@
        }),
{
}

} // verus!
