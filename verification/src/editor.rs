//! The editor's state and how each user action changes it: which profile is
//! selected, edits to it, adding, duplicating and deleting profiles, and whether
//! there are unsaved changes. The window shows this state and turns its signals
//! into these calls.
use vstd::prelude::*;
use crate::config::{
    check_profile, is_default_profile, lemma_config_valid_iff_profiles_valid, profile_errors,
    profiles_view, Config, ConfigView, FlowScale, GameConf, GameConfView,
};
use crate::text::{
    opt_chars, chars_eq, chars_of, concat, concat3, decimal, decimal_exec, string_of, strings_view, text,
    trim, trim_exec,
};

verus! {

/// The editor's state: the configuration being edited, the selected profile, and
/// whether it has changes not yet saved.
pub struct AppState {
    pub config: Config,
    pub selected_profile: Option<usize>,
    pub dirty: bool,
}

pub struct AppStateView {
    pub config: ConfigView,
    pub selected_profile: Option<usize>,
    pub dirty: bool,
}

impl View for AppState {
    type V = AppStateView;

    open spec fn view(&self) -> AppStateView {
        AppStateView {
            config: self.config@,
            selected_profile: self.selected_profile,
            dirty: self.dirty,
        }
    }
}

/// The name given to the `n`-th profile added.
pub open spec fn new_profile_name(n: nat) -> Seq<char> {
    "New Profile "@ + decimal(n)
}

/// The values the profile editor shows for one profile.
pub struct ProfileEdit {
    pub name: String,
    pub multiplier: u32,
    pub flow_scale: FlowScale,
    pub performance_mode: bool,
    /// The target frame rate; 0 means no cap.
    pub target_fps: u32,
    pub gpu: Option<String>,
}

/// The selected index when it names a profile.
pub open spec fn selected_index(s: AppStateView) -> Option<int> {
    match s.selected_profile {
        Some(i) => if i < s.config.profiles.len() {
            Some(i as int)
        } else {
            None
        },
        None => None,
    }
}

/// `c` with profile `i` replaced by `p`.
pub open spec fn with_profile(c: ConfigView, i: int, p: GameConfView) -> ConfigView {
    ConfigView { profiles: c.profiles.update(i, p), ..c }
}

/// The window title for a state with or without unsaved changes.
pub open spec fn title_text(dirty: bool) -> Seq<char> {
    if dirty {
        "* lsfg-vk Configuration"@
    } else {
        "lsfg-vk Configuration"@
    }
}

/// A step from `old` to `new` keeps unsaved changes marked: a marked state stays
/// marked, and a step that changes the configuration marks it.
pub open spec fn marks_changes(old: AppStateView, new: AppStateView) -> bool {
    &&& old.dirty ==> new.dirty
    &&& new.config != old.config ==> new.dirty
}

impl AppState {
    /// The state for a freshly loaded configuration: the first profile selected
    /// when there is one, nothing unsaved.
    pub fn new(config: Config) -> (r: AppState)
        ensures
            r@.config == config@,
            r@.selected_profile == (if config@.profiles.len() > 0 {
                Some(0usize)
            } else {
                None
            }),
            !r@.dirty,
    {
        let selected = if config.profiles.len() > 0 {
            Some(0)
        } else {
            None
        };
        AppState { config, selected_profile: selected, dirty: false }
    }

    /// Select the profile at `idx`.
    pub fn select(&mut self, idx: usize)
        ensures
            marks_changes(old(self)@, final(self)@),
            final(self)@ == (AppStateView { selected_profile: Some(idx), ..old(self)@ }),
    {
        self.selected_profile = Some(idx);
    }

    fn replace_profile(&mut self, idx: usize, p: GameConf)
        requires
            idx < old(self).config.profiles@.len(),
        ensures
            final(self)@ == (AppStateView {
                config: with_profile(old(self)@.config, idx as int, p@),
                ..old(self)@
            }),
    {
        let ghost before = self.config.profiles@;
        let ghost pv = p@;
        self.config.profiles.set(idx, p);
        assert(profiles_view(self.config.profiles@) =~= profiles_view(before).update(idx as int, pv));
    }

    /// Add a default profile named "New Profile N" (N the new number of profiles),
    /// select it and mark the state changed; returns its index.
    pub fn add_profile(&mut self) -> (r: usize)
        requires
            old(self).config.profiles@.len() < usize::MAX,
        ensures
            marks_changes(old(self)@, final(self)@),
            r == old(self)@.config.profiles.len(),
            final(self)@.config.profiles.len() == r + 1,
            final(self)@.config.profiles.take(r as int) == old(self)@.config.profiles,
            final(self)@.config.profiles[r as int] == (GameConfView {
                name: new_profile_name((r + 1) as nat),
                ..final(self)@.config.profiles[r as int]
            }),
            is_default_profile(
                GameConfView { name: "Profile"@, ..final(self)@.config.profiles[r as int] },
            ),
            final(self)@.config.version == old(self)@.config.version,
            final(self)@.config.global == old(self)@.config.global,
            final(self)@.selected_profile == Some(r),
            final(self)@.dirty,
    {
        let ghost before = self.config.profiles@;
        let n = self.config.profiles.len();
        let name = string_of(&concat(&text("New Profile "), &decimal_exec((n + 1) as u64)));
        let mut p = GameConf::default();
        p.name = name;
        let ghost pv = p@;
        self.config.profiles.push(p);
        assert(profiles_view(self.config.profiles@) =~= profiles_view(before).push(pv));
        assert(profiles_view(self.config.profiles@).take(n as int) =~= profiles_view(before));
        self.dirty = true;
        self.selected_profile = Some(n);
        n
    }

    /// Append a copy of the selected profile named "<name> (copy)", select it and
    /// mark the state changed; returns its index. Nothing changes when no profile
    /// is selected.
    pub fn duplicate_selected(&mut self) -> (r: Option<usize>)
        requires
            old(self).config.profiles@.len() < usize::MAX,
        ensures
            marks_changes(old(self)@, final(self)@),
            match selected_index(old(self)@) {
                None => r is None && final(self)@ == old(self)@,
                Some(i) => {
                    let src = old(self)@.config.profiles[i];
                    let n = old(self)@.config.profiles.len();
                    &&& r == Some(n as usize)
                    &&& final(self)@.config.profiles == old(self)@.config.profiles.push(
                        GameConfView { name: src.name + " (copy)"@, ..src },
                    )
                    &&& final(self)@.config.version == old(self)@.config.version
                    &&& final(self)@.config.global == old(self)@.config.global
                    &&& final(self)@.selected_profile == Some(n as usize)
                    &&& final(self)@.dirty
                },
            },
    {
        let idx = match self.selected_profile {
            Some(i) => i,
            None => return None,
        };
        if idx >= self.config.profiles.len() {
            return None;
        }
        let ghost before = self.config.profiles@;
        let mut dup = self.config.profiles[idx].clone();
        dup.name = string_of(&concat(&chars_of(dup.name.as_str()), &text(" (copy)")));
        let ghost dv = dup@;
        self.config.profiles.push(dup);
        assert(profiles_view(self.config.profiles@) =~= profiles_view(before).push(dv));
        let n = self.config.profiles.len() - 1;
        self.dirty = true;
        self.selected_profile = Some(n);
        Some(n)
    }

    /// Delete the selected profile (when one is selected) and mark the state
    /// changed; then the first profile is selected, or none when none is left.
    pub fn delete_selected(&mut self)
        ensures
            marks_changes(old(self)@, final(self)@),
            match selected_index(old(self)@) {
                None => final(self)@.config == old(self)@.config && final(self)@.dirty == old(
                    self,
                )@.dirty,
                Some(i) => final(self)@.config == (ConfigView {
                    profiles: old(self)@.config.profiles.remove(i),
                    ..old(self)@.config
                }) && final(self)@.dirty,
            },
            final(self)@.selected_profile == (if final(self)@.config.profiles.len() > 0 {
                Some(0usize)
            } else {
                None
            }),
    {
        if let Some(idx) = self.selected_profile {
            if idx < self.config.profiles.len() {
                let ghost before = self.config.profiles@;
                self.config.profiles.remove(idx);
                assert(profiles_view(self.config.profiles@) =~= profiles_view(before).remove(
                    idx as int,
                ));
                self.dirty = true;
            }
        }
        if self.config.profiles.len() > 0 {
            self.selected_profile = Some(0);
        } else {
            self.selected_profile = None;
        }
    }

    /// Replace the targets of the selected profile and mark the state changed.
    /// Nothing changes when no profile is selected.
    pub fn set_selected_targets(&mut self, entries: Vec<String>)
        ensures
            marks_changes(old(self)@, final(self)@),
            match selected_index(old(self)@) {
                None => final(self)@ == old(self)@,
                Some(i) => {
                    let p = final(self)@.config.profiles[i];
                    &&& final(self)@.config.profiles.len() == old(self)@.config.profiles.len()
                    &&& forall|j: int|
                        0 <= j < final(self)@.config.profiles.len() && j != i
                            ==> #[trigger] final(self)@.config.profiles[j] == old(
                            self,
                        )@.config.profiles[j]
                    &&& p.active_in.targets() == strings_view(entries@)
                    &&& p == (GameConfView { active_in: p.active_in, ..old(self)@.config.profiles[i] })
                    &&& final(self)@.config.version == old(self)@.config.version
                    &&& final(self)@.config.global == old(self)@.config.global
                    &&& final(self)@.selected_profile == old(self)@.selected_profile
                    &&& final(self)@.dirty
                },
            },
    {
        let idx = match self.selected_profile {
            Some(i) => i,
            None => return,
        };
        if idx >= self.config.profiles.len() {
            return;
        }
        let ghost ev = entries.deep_view();
        assert(ev =~= strings_view(entries@));
        let mut p = self.config.profiles[idx].clone();
        p.set_active_in(entries);
        self.replace_profile(idx, p);
        self.dirty = true;
    }

    /// Store the editor's values into the selected profile and mark the state
    /// changed; a target frame rate of 0 means no cap. Returns whether the name
    /// changed. Nothing changes when no profile is selected.
    pub fn apply_profile_edit(&mut self, edit: ProfileEdit) -> (r: bool)
        ensures
            marks_changes(old(self)@, final(self)@),
            match selected_index(old(self)@) {
                None => final(self)@ == old(self)@ && !r,
                Some(i) => {
                    let old_p = old(self)@.config.profiles[i];
                    &&& final(self)@.config == with_profile(
                        old(self)@.config,
                        i,
                        GameConfView {
                            name: edit.name@,
                            multiplier: edit.multiplier,
                            flow_scale: edit.flow_scale,
                            performance_mode: edit.performance_mode,
                            target_fps: if edit.target_fps == 0 {
                                None
                            } else {
                                Some(edit.target_fps)
                            },
                            gpu: opt_chars(edit.gpu),
                            ..old_p
                        },
                    )
                    &&& r == (old_p.name != edit.name@)
                    &&& final(self)@.selected_profile == old(self)@.selected_profile
                    &&& final(self)@.dirty
                },
            },
    {
        let idx = match self.selected_profile {
            Some(i) => i,
            None => return false,
        };
        if idx >= self.config.profiles.len() {
            return false;
        }
        let mut p = self.config.profiles[idx].clone();
        let changed = !chars_eq(&chars_of(p.name.as_str()), &chars_of(edit.name.as_str()));
        p.name = edit.name;
        p.multiplier = edit.multiplier;
        p.flow_scale = edit.flow_scale;
        p.performance_mode = edit.performance_mode;
        p.target_fps = if edit.target_fps == 0 {
            None
        } else {
            Some(edit.target_fps)
        };
        p.gpu = edit.gpu;
        self.replace_profile(idx, p);
        self.dirty = true;
        changed
    }

    /// Set the DLL override from the text typed: blank text (after trimming)
    /// clears it, anything else is stored as typed. Marks the state changed.
    pub fn set_dll_text(&mut self, text_in: String)
        ensures
            marks_changes(old(self)@, final(self)@),
            final(self)@.config.global.dll == (if trim(text_in@).len() == 0 {
                None
            } else {
                Some(text_in@)
            }),
            final(self)@.config.global.allow_fp16 == old(self)@.config.global.allow_fp16,
            final(self)@.config.profiles == old(self)@.config.profiles,
            final(self)@.config.version == old(self)@.config.version,
            final(self)@.selected_profile == old(self)@.selected_profile,
            final(self)@.dirty,
    {
        if trim_exec(&chars_of(text_in.as_str())).len() == 0 {
            self.config.global.dll = None;
        } else {
            self.config.global.dll = Some(text_in);
        }
        self.dirty = true;
    }

    /// Set whether FP16 is allowed, and mark the state changed.
    pub fn set_allow_fp16(&mut self, allow: bool)
        ensures
            marks_changes(old(self)@, final(self)@),
            final(self)@.config.global.allow_fp16 == allow,
            final(self)@.config.global.dll == old(self)@.config.global.dll,
            final(self)@.config.profiles == old(self)@.config.profiles,
            final(self)@.config.version == old(self)@.config.version,
            final(self)@.selected_profile == old(self)@.selected_profile,
            final(self)@.dirty,
    {
        self.config.global.allow_fp16 = allow;
        self.dirty = true;
    }

    /// Record that the configuration was saved (or that its changes are to be
    /// discarded).
    pub fn mark_saved(&mut self)
        ensures
            final(self)@ == (AppStateView { dirty: false, ..old(self)@ }),
    {
        self.dirty = false;
    }

    /// Whether closing the window must first ask to discard unsaved changes.
    pub fn needs_close_confirmation(&self) -> (r: bool)
        ensures
            r == self.dirty,
    {
        self.dirty
    }

    /// The window title, marked when there are unsaved changes.
    pub fn title(&self) -> (r: String)
        ensures
            r@ == title_text(self.dirty),
    {
        if self.dirty {
            "* lsfg-vk Configuration".to_owned()
        } else {
            "lsfg-vk Configuration".to_owned()
        }
    }
}

/// The title is marked exactly when the state has unsaved changes (which every
/// editing call sets and `mark_saved` clears).
pub proof fn lemma_title_tracks_changes(s: AppStateView)
    ensures
        (title_text(s.dirty) == "* lsfg-vk Configuration"@) <==> s.dirty,
        (title_text(s.dirty) == "lsfg-vk Configuration"@) <==> !s.dirty,
{
    reveal_strlit("* lsfg-vk Configuration");
    reveal_strlit("lsfg-vk Configuration");
    assert("* lsfg-vk Configuration"@.len() != "lsfg-vk Configuration"@.len());
}

/// Adding a profile to a configuration that passes validation leaves one that
/// passes: the new profile has the default settings, whatever its name.
pub proof fn lemma_add_profile_keeps_valid(profiles: Seq<GameConfView>, added: GameConfView)
    requires
        profile_errors(profiles).len() == 0,
        is_default_profile((GameConfView { name: "Profile"@, ..added })),
    ensures
        profile_errors(profiles.push(added)).len() == 0,
{
    assert(profiles.push(added).drop_last() =~= profiles);
    assert(check_profile(added) is None);
}

/// Duplicating a profile that passes validation, in a configuration that passes,
/// leaves one that passes: the copy differs in its name only.
pub proof fn lemma_duplicate_keeps_valid(profiles: Seq<GameConfView>, i: int, name: Seq<char>)
    requires
        profile_errors(profiles).len() == 0,
        0 <= i < profiles.len(),
    ensures
        profile_errors(profiles.push((GameConfView { name, ..profiles[i] }))).len() == 0,
{
    lemma_config_valid_iff_profiles_valid(profiles);
    assert(check_profile(profiles[i]) is None);
    let dup = GameConfView { name, ..profiles[i] };
    assert(profiles.push(dup).drop_last() =~= profiles);
    assert(check_profile(dup) is None);
}

/// Unsaved changes stay marked until they are saved: along any run of editing
/// steps (each made by one of the editing calls, none of which is `mark_saved`),
/// if the configuration at the end differs from the one at the start, the state at
/// the end is marked as unsaved.
pub proof fn lemma_unsaved_until_saved(states: Seq<AppStateView>)
    requires
        states.len() > 0,
        forall|i: int| 0 <= i < states.len() - 1 ==> #[trigger] marks_changes(states[i], states[i + 1]),
    ensures
        states.last().config != states[0].config ==> states.last().dirty,
        states[0].dirty ==> states.last().dirty,
    decreases states.len(),
{
    if states.len() > 1 {
        let front = states.drop_last();
        assert forall|i: int| 0 <= i < front.len() - 1 implies #[trigger] marks_changes(front[i], front[i + 1]) by {
            assert(marks_changes(states[i], states[i + 1]));
        }
        lemma_unsaved_until_saved(front);
        let k = states.len() - 2;
        assert(marks_changes(states[k], states[k + 1]));
        assert(front.last() == states[k]);
        assert(front[0] == states[0]);
    }
}

} // verus!
