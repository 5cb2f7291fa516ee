//! The configuration file's data model (`conf.toml`, version 2) and its rules.
//!
//! The file is parsed and written elsewhere; here are the types it maps to, their
//! defaults, the profile targets, and validation.
use vstd::prelude::*;
use crate::text::{
    copy_opt, opt_chars, chars_eq, chars_of, concat3, decimal, decimal_exec, lines, lines_exec, split, split_exec,
    starts_with, starts_with_exec, string_of, strings_contain, strings_view, text, trim,
    trim_exec, trim_set, trim_set_exec, CharSet,
};
use crate::paths::{config_dir, join2_str, path_join2};

verus! {

/// The configuration format version this library reads and writes.
pub const CONFIG_VERSION: u32 = 2;

/// The smallest multiplier a profile may use.
pub const MIN_MULTIPLIER: u32 = 2;

/// The largest multiplier a profile may use.
pub const MAX_MULTIPLIER: u32 = 8;

/// IEEE-754 single-precision bits of 0.25, the smallest flow scale.
pub const FLOW_SCALE_MIN_BITS: u32 = 0x3E80_0000;

/// IEEE-754 single-precision bits of 1.0, the largest (and default) flow scale.
pub const FLOW_SCALE_MAX_BITS: u32 = 0x3F80_0000;

/// IEEE-754 single-precision bits of 0.85, the flow scale of the preset profile.
pub const FLOW_SCALE_PRESET_BITS: u32 = 0x3F59_999A;

/// A flow scale, held as the bit pattern of the `f32` that the file stores.
///
/// For single-precision floats, the numbers from 0.25 to 1.0 are exactly the bit
/// patterns from `FLOW_SCALE_MIN_BITS` to `FLOW_SCALE_MAX_BITS`: positive floats
/// order as their bits do, and negative ones, infinities and NaNs lie outside.
#[derive(Clone, Copy, PartialEq, Eq, Structural, Debug)]
pub struct FlowScale {
    pub bits: u32,
}

impl FlowScale {
    /// The scale lies in 0.25 ..= 1.0.
    pub open spec fn in_range(self) -> bool {
        FLOW_SCALE_MIN_BITS <= self.bits <= FLOW_SCALE_MAX_BITS
    }

    pub fn is_in_range(&self) -> (r: bool)
        ensures
            r == self.in_range(),
    {
        FLOW_SCALE_MIN_BITS <= self.bits && self.bits <= FLOW_SCALE_MAX_BITS
    }
}

/// Global configuration shared across all profiles.
pub struct GlobalConf {
    /// Optional override path to Lossless.dll.
    pub dll: Option<String>,
    /// Whether to allow FP16 acceleration.
    pub allow_fp16: bool,
}

pub struct GlobalView {
    pub dll: Option<Seq<char>>,
    pub allow_fp16: bool,
}

impl View for GlobalConf {
    type V = GlobalView;

    open spec fn view(&self) -> GlobalView {
        GlobalView { dll: opt_chars(self.dll), allow_fp16: self.allow_fp16 }
    }
}

impl Default for GlobalConf {
    fn default() -> (r: Self)
        ensures
            r.dll is None,
            !r.allow_fp16,
    {
        GlobalConf { dll: None, allow_fp16: false }
    }
}

/// One item of a list of targets: a name, or a value of another kind that the
/// list ignores (kept as its TOML text, so that saving writes it back).
pub enum ActiveInItem {
    Text(String),
    Other(String),
}

/// The executables that activate a profile: one name, a list, or a value of
/// another kind that names nothing (kept as its TOML text).
pub enum ActiveIn {
    Single(String),
    Many(Vec<ActiveInItem>),
    Other(String),
}

/// A list of targets by view: each item is `Ok` with a name or `Err` with the
/// TOML text of a value of another kind.
pub enum ActiveInView {
    Single(Seq<char>),
    Many(Seq<Result<Seq<char>, Seq<char>>>),
    Other(Seq<char>),
}

pub open spec fn item_view(i: ActiveInItem) -> Result<Seq<char>, Seq<char>> {
    match i {
        ActiveInItem::Text(s) => Ok(s@),
        ActiveInItem::Other(t) => Err(t@),
    }
}

impl View for ActiveIn {
    type V = ActiveInView;

    open spec fn view(&self) -> ActiveInView {
        match self {
            ActiveIn::Single(s) => ActiveInView::Single(s@),
            ActiveIn::Many(v) => ActiveInView::Many(v@.map_values(|i: ActiveInItem| item_view(i))),
            ActiveIn::Other(t) => ActiveInView::Other(t@),
        }
    }
}

/// A name as an item of a list of targets.
pub open spec fn name_item(s: String) -> Result<Seq<char>, Seq<char>> {
    Ok(s@)
}

/// The names among `items`, in order.
pub open spec fn item_texts(items: Seq<Result<Seq<char>, Seq<char>>>) -> Seq<Seq<char>>
    decreases items.len(),
{
    if items.len() == 0 {
        seq![]
    } else {
        let prev = item_texts(items.drop_last());
        match items.last() {
            Ok(s) => prev.push(s),
            Err(_) => prev,
        }
    }
}

impl ActiveInView {
    /// The names this value lists.
    pub open spec fn targets(self) -> Seq<Seq<char>> {
        match self {
            ActiveInView::Single(s) => seq![s],
            ActiveInView::Many(items) => item_texts(items),
            ActiveInView::Other(_) => seq![],
        }
    }
}

impl ActiveIn {
    /// A copy of this value.
    pub fn duplicate(&self) -> (r: ActiveIn)
        ensures
            r@ == self@,
    {
        match self {
            ActiveIn::Single(s) => ActiveIn::Single(s.clone()),
            ActiveIn::Other(t) => ActiveIn::Other(t.clone()),
            ActiveIn::Many(v) => {
                let mut out: Vec<ActiveInItem> = Vec::new();
                let n = v.len();
                let mut i: usize = 0;
                while i < n
                    invariant
                        n == v@.len(),
                        i <= n,
                        out@.map_values(|i: ActiveInItem| item_view(i)) == v@.take(
                            i as int,
                        ).map_values(|i: ActiveInItem| item_view(i)),
                    decreases n - i,
                {
                    let item = match &v[i] {
                        ActiveInItem::Text(s) => ActiveInItem::Text(s.clone()),
                        ActiveInItem::Other(t) => ActiveInItem::Other(t.clone()),
                    };
                    assert(item_view(item) == item_view(v@[i as int]));
                    let ghost before = out@.map_values(|i: ActiveInItem| item_view(i));
                    out.push(item);
                    assert(out@.map_values(|i: ActiveInItem| item_view(i)) =~= before.push(
                        item_view(item),
                    ));
                    assert(v@.take(i + 1).map_values(|i: ActiveInItem| item_view(i)) =~= v@.take(
                        i as int,
                    ).map_values(|i: ActiveInItem| item_view(i)).push(item_view(v@[i as int])));
                    i = i + 1;
                }
                assert(v@.take(n as int) =~= v@);
                ActiveIn::Many(out)
            },
        }
    }
}

/// Per-game profile configuration.
pub struct GameConf {
    /// Human-readable profile name.
    pub name: String,
    /// Executables or process names that activate this profile.
    pub active_in: ActiveIn,
    /// Optional GPU selection.
    pub gpu: Option<String>,
    /// Frame generation multiplier.
    pub multiplier: u32,
    /// Flow scale.
    pub flow_scale: FlowScale,
    /// Use performance mode (lighter model).
    pub performance_mode: bool,
    /// Pacing method (only "none" is known).
    pub pacing: String,
    /// Optional target output FPS cap.
    pub target_fps: Option<u32>,
}

pub struct GameConfView {
    pub name: Seq<char>,
    pub active_in: ActiveInView,
    pub gpu: Option<Seq<char>>,
    pub multiplier: u32,
    pub flow_scale: FlowScale,
    pub performance_mode: bool,
    pub pacing: Seq<char>,
    pub target_fps: Option<u32>,
}

impl View for GameConf {
    type V = GameConfView;

    open spec fn view(&self) -> GameConfView {
        GameConfView {
            name: self.name@,
            active_in: self.active_in@,
            gpu: opt_chars(self.gpu),
            multiplier: self.multiplier,
            flow_scale: self.flow_scale,
            performance_mode: self.performance_mode,
            pacing: self.pacing@,
            target_fps: self.target_fps,
        }
    }
}

/// The top-level configuration file structure.
pub struct Config {
    pub version: u32,
    pub global: GlobalConf,
    pub profiles: Vec<GameConf>,
}

pub struct ConfigView {
    pub version: u32,
    pub global: GlobalView,
    pub profiles: Seq<GameConfView>,
}

/// The profiles of `v`, each by its view.
pub open spec fn profiles_view(v: Seq<GameConf>) -> Seq<GameConfView> {
    v.map_values(|p: GameConf| p@)
}

impl View for Config {
    type V = ConfigView;

    open spec fn view(&self) -> ConfigView {
        ConfigView { version: self.version, global: self.global@, profiles: profiles_view(self.profiles@) }
    }
}

/// `allow_fp16` when the global table leaves it out.
pub fn default_true() -> (r: bool)
    ensures
        r,
{
    true
}

/// A profile's name when the file gives none.
pub fn default_name() -> (r: String)
    ensures
        r@ == "Profile"@,
{
    "Profile".to_owned()
}

/// A profile's targets when the file gives none: an empty list.
pub fn default_active_in() -> (r: ActiveIn)
    ensures
        r@ == ActiveInView::Many(seq![]),
{
    let v: Vec<ActiveInItem> = Vec::new();
    let r = ActiveIn::Many(v);
    assert(r@ == ActiveInView::Many(seq![])) by {
        assert(v@.map_values(|i: ActiveInItem| item_view(i)) =~= Seq::<Result<Seq<char>, Seq<char>>>::empty());
    }
    r
}

/// A profile's multiplier when the file gives none.
pub fn default_multiplier() -> (r: u32)
    ensures
        r == 2,
{
    2
}

/// A profile's flow scale when the file gives none: 1.0.
pub fn default_flow_scale() -> (r: FlowScale)
    ensures
        r.bits == FLOW_SCALE_MAX_BITS,
{
    FlowScale { bits: FLOW_SCALE_MAX_BITS }
}

/// A profile's pacing when the file gives none.
pub fn default_pacing() -> (r: String)
    ensures
        r@ == "none"@,
{
    "none".to_owned()
}

/// The profile that a missing or partial table stands for.
pub open spec fn is_default_profile(p: GameConfView) -> bool {
    &&& p.name == "Profile"@
    &&& p.active_in == ActiveInView::Many(seq![])
    &&& p.gpu is None
    &&& p.multiplier == 2
    &&& p.flow_scale.bits == FLOW_SCALE_MAX_BITS
    &&& !p.performance_mode
    &&& p.pacing == "none"@
    &&& p.target_fps is None
}

impl Default for GameConf {
    fn default() -> (r: Self)
        ensures
            is_default_profile(r@),
    {
        GameConf {
            name: default_name(),
            active_in: default_active_in(),
            gpu: None,
            multiplier: default_multiplier(),
            flow_scale: default_flow_scale(),
            performance_mode: false,
            pacing: default_pacing(),
            target_fps: None,
        }
    }
}

/// What is wrong with a profile, by view.
pub enum ProfileErrorView {
    MultiplierTooLow { name: Seq<char>, got: u32 },
    MultiplierTooHigh { name: Seq<char>, got: u32 },
    FlowScaleOutOfRange { name: Seq<char>, scale: FlowScale },
    UnknownPacing { name: Seq<char>, pacing: Seq<char> },
}

/// What is wrong with a profile: the first rule, in the order below, that it breaks.
pub enum ProfileError {
    /// The multiplier is below 2.
    MultiplierTooLow { name: String, got: u32 },
    /// The multiplier is above 8.
    MultiplierTooHigh { name: String, got: u32 },
    /// The flow scale lies outside 0.25 ..= 1.0.
    FlowScaleOutOfRange { name: String, scale: FlowScale },
    /// The pacing is not "none".
    UnknownPacing { name: String, pacing: String },
}

impl View for ProfileError {
    type V = ProfileErrorView;

    open spec fn view(&self) -> ProfileErrorView {
        match self {
            ProfileError::MultiplierTooLow { name, got } => ProfileErrorView::MultiplierTooLow {
                name: name@,
                got: *got,
            },
            ProfileError::MultiplierTooHigh { name, got } => ProfileErrorView::MultiplierTooHigh {
                name: name@,
                got: *got,
            },
            ProfileError::FlowScaleOutOfRange { name, scale } =>
                ProfileErrorView::FlowScaleOutOfRange { name: name@, scale: *scale },
            ProfileError::UnknownPacing { name, pacing } => ProfileErrorView::UnknownPacing {
                name: name@,
                pacing: pacing@,
            },
        }
    }
}

/// The message shown for a profile error; `scale_text` is how the flow scale is
/// written (with two decimals) in the message about it.
pub open spec fn error_text(e: ProfileErrorView, scale_text: Seq<char>) -> Seq<char> {
    match e {
        ProfileErrorView::MultiplierTooLow { name, got } => "Profile '"@ + name
            + "': multiplier must be >= 2 (got "@ + decimal(got as nat) + ")"@,
        ProfileErrorView::MultiplierTooHigh { name, got } => "Profile '"@ + name
            + "': multiplier must be <= 8 (got "@ + decimal(got as nat) + ")"@,
        ProfileErrorView::FlowScaleOutOfRange { name, .. } => "Profile '"@ + name
            + "': flow_scale must be 0.25-1.0 (got "@ + scale_text + ")"@,
        ProfileErrorView::UnknownPacing { name, pacing } => "Profile '"@ + name
            + "': unknown pacing '"@ + pacing + "'"@,
    }
}

impl ProfileError {
    /// The message shown for this error, where `scale_text` is the flow scale
    /// written with two decimals (only the flow scale's message shows it).
    pub fn message(&self, scale_text: &str) -> (r: String)
        ensures
            r@ == error_text(self@, scale_text@),
    {
        let (name, rest) = match self {
            ProfileError::MultiplierTooLow { name, got } => (
                name,
                concat3(
                    &text("': multiplier must be >= 2 (got "),
                    &decimal_exec(*got as u64),
                    &text(")"),
                ),
            ),
            ProfileError::MultiplierTooHigh { name, got } => (
                name,
                concat3(
                    &text("': multiplier must be <= 8 (got "),
                    &decimal_exec(*got as u64),
                    &text(")"),
                ),
            ),
            ProfileError::FlowScaleOutOfRange { name, .. } => (
                name,
                concat3(&text("': flow_scale must be 0.25-1.0 (got "), &chars_of(scale_text), &text(")")),
            ),
            ProfileError::UnknownPacing { name, pacing } => (
                name,
                concat3(&text("': unknown pacing '"), &chars_of(pacing.as_str()), &text("'")),
            ),
        };
        let r = concat3(&text("Profile '"), &chars_of(name.as_str()), &rest);
        proof {
            assert(r@ =~= error_text(self@, scale_text@));
        }
        string_of(&r)
    }
}

/// The first rule that profile `p` breaks, if any.
pub open spec fn check_profile(p: GameConfView) -> Option<ProfileErrorView> {
    if p.multiplier < MIN_MULTIPLIER {
        Some(ProfileErrorView::MultiplierTooLow { name: p.name, got: p.multiplier })
    } else if p.multiplier > MAX_MULTIPLIER {
        Some(ProfileErrorView::MultiplierTooHigh { name: p.name, got: p.multiplier })
    } else if !p.flow_scale.in_range() {
        Some(ProfileErrorView::FlowScaleOutOfRange { name: p.name, scale: p.flow_scale })
    } else if p.pacing != "none"@ {
        Some(ProfileErrorView::UnknownPacing { name: p.name, pacing: p.pacing })
    } else {
        None
    }
}

/// The errors of the profiles in `ps`, in order, one for each profile that breaks
/// a rule.
pub open spec fn profile_errors(ps: Seq<GameConfView>) -> Seq<ProfileErrorView>
    decreases ps.len(),
{
    if ps.len() == 0 {
        seq![]
    } else {
        let prev = profile_errors(ps.drop_last());
        match check_profile(ps.last()) {
            Some(e) => prev.push(e),
            None => prev,
        }
    }
}

/// The errors in `es`, each by its view.
pub open spec fn errors_view(es: Seq<ProfileError>) -> Seq<ProfileErrorView> {
    es.map_values(|e: ProfileError| e@)
}

impl Clone for GameConf {
    fn clone(&self) -> (r: Self)
        ensures
            r@ == self@,
    {
        GameConf {
            name: self.name.clone(),
            active_in: self.active_in.duplicate(),
            gpu: copy_opt(&self.gpu),
            multiplier: self.multiplier,
            flow_scale: self.flow_scale,
            performance_mode: self.performance_mode,
            pacing: self.pacing.clone(),
            target_fps: self.target_fps,
        }
    }
}

impl GameConf {
    /// The names of the executables that activate this profile.
    pub fn active_in_list(&self) -> (r: Vec<String>)
        ensures
            r.deep_view() == self@.active_in.targets(),
    {
        let mut out: Vec<String> = Vec::new();
        match &self.active_in {
            ActiveIn::Single(s) => {
                out.push(s.clone());
                assert(out.deep_view() =~= seq![s@]);
            },
            ActiveIn::Other(_) => {
                assert(out.deep_view() =~= Seq::<Seq<char>>::empty());
            },
            ActiveIn::Many(v) => {
                let ghost items = v@.map_values(|i: ActiveInItem| item_view(i));
                let n = v.len();
                let mut i: usize = 0;
                assert(out.deep_view() =~= item_texts(items.take(0)));
                while i < n
                    invariant
                        n == v@.len(),
                        items == v@.map_values(|i: ActiveInItem| item_view(i)),
                        i <= n,
                        out.deep_view() == item_texts(items.take(i as int)),
                    decreases n - i,
                {
                    assert(items.take(i + 1).drop_last() =~= items.take(i as int));
                    assert(items.take(i + 1).last() == item_view(v@[i as int]));
                    match &v[i] {
                        ActiveInItem::Text(s) => {
                            let ghost before = out.deep_view();
                            out.push(s.clone());
                            assert(out.deep_view() =~= before.push(s@));
                        },
                        ActiveInItem::Other(_) => {},
                    }
                    i = i + 1;
                }
                assert(items.take(n as int) =~= items);
            },
        }
        out
    }

    /// Set the targets from a list of names: one name is stored alone, any other
    /// number of names as a list.
    pub fn set_active_in(&mut self, list: Vec<String>)
        ensures
            list@.len() == 1 ==> final(self)@.active_in == ActiveInView::Single(list@[0]@),
            list@.len() != 1 ==> final(self)@.active_in == ActiveInView::Many(
                list@.map_values(|s: String| name_item(s)),
            ),
            final(self)@.active_in.targets() == list.deep_view(),
            final(self)@.name == old(self)@.name,
            final(self)@.gpu == old(self)@.gpu,
            final(self)@.multiplier == old(self)@.multiplier,
            final(self)@.flow_scale == old(self)@.flow_scale,
            final(self)@.performance_mode == old(self)@.performance_mode,
            final(self)@.pacing == old(self)@.pacing,
            final(self)@.target_fps == old(self)@.target_fps,
    {
        let ghost lv = list.deep_view();
        if list.len() == 1 {
            let mut list = list;
            let s = list.pop().unwrap();
            self.active_in = ActiveIn::Single(s);
            assert(self@.active_in.targets() =~= lv);
        } else {
            let n = list.len();
            let mut items: Vec<ActiveInItem> = Vec::new();
            let mut i: usize = 0;
            while i < n
                invariant
                    n == list@.len(),
                    lv == list.deep_view(),
                    i <= n,
                    items@.map_values(|i: ActiveInItem| item_view(i)) == list@.take(
                        i as int,
                    ).map_values(|s: String| name_item(s)),
                    item_texts(items@.map_values(|i: ActiveInItem| item_view(i))) == lv.take(
                        i as int,
                    ),
                decreases n - i,
            {
                let ghost before = items@.map_values(|i: ActiveInItem| item_view(i));
                items.push(ActiveInItem::Text(list[i].clone()));
                let ghost after = items@.map_values(|i: ActiveInItem| item_view(i));
                assert(after =~= before.push(Ok(list@[i as int]@)));
                assert(after =~= list@.take(i + 1).map_values(|s: String| name_item(s)));
                assert(after.drop_last() =~= before);
                assert(lv.take(i + 1) =~= lv.take(i as int).push(list@[i as int]@));
                i = i + 1;
            }
            assert(list@.take(n as int) =~= list@);
            assert(lv.take(n as int) =~= lv);
            self.active_in = ActiveIn::Many(items);
        }
    }

    /// Check this profile's settings.
    pub fn validate(&self) -> (r: Result<(), ProfileError>)
        ensures
            r is Ok <==> check_profile(self@) is None,
            r matches Err(e) ==> check_profile(self@) == Some(e@),
    {
        if self.multiplier < MIN_MULTIPLIER {
            return Err(ProfileError::MultiplierTooLow { name: self.name.clone(), got: self.multiplier });
        }
        if self.multiplier > MAX_MULTIPLIER {
            return Err(
                ProfileError::MultiplierTooHigh { name: self.name.clone(), got: self.multiplier },
            );
        }
        if !self.flow_scale.is_in_range() {
            return Err(
                ProfileError::FlowScaleOutOfRange { name: self.name.clone(), scale: self.flow_scale },
            );
        }
        let none = text("none");
        if !chars_eq(&chars_of(self.pacing.as_str()), &none) {
            return Err(
                ProfileError::UnknownPacing { name: self.name.clone(), pacing: self.pacing.clone() },
            );
        }
        Ok(())
    }
}

/// Check every profile of `config`: `Ok` when all pass, else the error of each
/// profile that fails, in order.
pub fn validate_config(config: &Config) -> (r: Result<(), Vec<ProfileError>>)
    ensures
        r is Ok <==> profile_errors(config@.profiles).len() == 0,
        r matches Err(es) ==> errors_view(es@) == profile_errors(config@.profiles),
{
    let ghost ps = config@.profiles;
    let mut errors: Vec<ProfileError> = Vec::new();
    let n = config.profiles.len();
    let mut i: usize = 0;
    while i < n
        invariant
            n == config.profiles@.len(),
            ps == config@.profiles,
            i <= n,
            errors_view(errors@) == profile_errors(ps.take(i as int)),
        decreases n - i,
    {
        assert(ps.take(i + 1).drop_last() =~= ps.take(i as int));
        assert(ps.take(i + 1).last() == config.profiles@[i as int]@);
        match config.profiles[i].validate() {
            Ok(()) => {},
            Err(e) => {
                let ghost before = errors_view(errors@);
                errors.push(e);
                assert(errors_view(errors@) =~= before.push(e@));
            },
        }
        i = i + 1;
    }
    assert(ps.take(n as int) =~= ps);
    if errors.len() == 0 {
        Ok(())
    } else {
        Err(errors)
    }
}

/// A whole configuration passes validation exactly when each of its profiles does.
pub proof fn lemma_config_valid_iff_profiles_valid(ps: Seq<GameConfView>)
    ensures
        profile_errors(ps).len() == 0 <==> forall|i: int|
            0 <= i < ps.len() ==> #[trigger] check_profile(ps[i]) is None,
    decreases ps.len(),
{
    if ps.len() > 0 {
        lemma_config_valid_iff_profiles_valid(ps.drop_last());
        lemma_profile_errors_len(ps.drop_last());
        if profile_errors(ps).len() == 0 {
            assert forall|i: int| 0 <= i < ps.len() implies #[trigger] check_profile(ps[i]) is None by {
                if i < ps.len() - 1 {
                    assert(ps[i] == ps.drop_last()[i]);
                }
            }
        } else {
            if forall|i: int| 0 <= i < ps.len() ==> #[trigger] check_profile(ps[i]) is None {
                assert forall|i: int| 0 <= i < ps.drop_last().len() implies #[trigger] check_profile(
                    ps.drop_last()[i],
                ) is None by {
                    assert(ps[i] == ps.drop_last()[i]);
                }
                assert(check_profile(ps[ps.len() - 1]) is None);
            }
        }
    }
}

proof fn lemma_profile_errors_len(ps: Seq<GameConfView>)
    ensures
        profile_errors(ps).len() <= ps.len(),
    decreases ps.len(),
{
    if ps.len() > 0 {
        lemma_profile_errors_len(ps.drop_last());
    }
}

/// The configuration a fresh install starts from.
pub open spec fn is_default_config(c: ConfigView) -> bool {
    &&& c.version == CONFIG_VERSION
    &&& c.global.dll is None
    &&& c.global.allow_fp16
    &&& c.profiles.len() == 1
    &&& c.profiles[0].name == "4x FG / 85% [Performance]"@
    &&& c.profiles[0].active_in == ActiveInView::Many(seq![Ok("vkcube"@), Ok("vkcubepp"@)])
    &&& c.profiles[0].gpu is None
    &&& c.profiles[0].multiplier == 4
    &&& c.profiles[0].flow_scale.bits == FLOW_SCALE_PRESET_BITS
    &&& c.profiles[0].performance_mode
    &&& c.profiles[0].pacing == "none"@
    &&& c.profiles[0].target_fps is None
}

/// Generate the default configuration.
pub fn default_config() -> (r: Config)
    ensures
        is_default_config(r@),
{
    let mut items: Vec<ActiveInItem> = Vec::new();
    items.push(ActiveInItem::Text("vkcube".to_owned()));
    items.push(ActiveInItem::Text("vkcubepp".to_owned()));
    let profile = GameConf {
        name: "4x FG / 85% [Performance]".to_owned(),
        active_in: ActiveIn::Many(items),
        gpu: None,
        multiplier: 4,
        flow_scale: FlowScale { bits: FLOW_SCALE_PRESET_BITS },
        performance_mode: true,
        pacing: "none".to_owned(),
        target_fps: None,
    };
    assert(items@.map_values(|i: ActiveInItem| item_view(i)) =~= seq![
        Ok("vkcube"@),
        Ok("vkcubepp"@),
    ]);
    let mut profiles: Vec<GameConf> = Vec::new();
    profiles.push(profile);
    let r = Config {
        version: CONFIG_VERSION,
        global: GlobalConf { dll: None, allow_fp16: true },
        profiles,
    };
    assert(profiles_view(r.profiles@) =~= seq![profile@]);
    r
}

/// The default configuration passes validation.
pub proof fn lemma_default_config_is_valid(c: ConfigView)
    requires
        is_default_config(c),
    ensures
        profile_errors(c.profiles) == Seq::<ProfileErrorView>::empty(),
{
    assert(c.profiles.drop_last() =~= Seq::<GameConfView>::empty());
    assert(profile_errors(c.profiles.drop_last()) == Seq::<ProfileErrorView>::empty());
    assert(c.profiles.last() == c.profiles[0]);
    assert(check_profile(c.profiles[0]) is None);
}

/// A default profile passes validation.
pub proof fn lemma_default_profile_is_valid(p: GameConfView)
    requires
        is_default_profile(p),
    ensures
        check_profile(p) is None,
{
}

/// Setting a profile's targets and reading them back gives the list that was set.
pub proof fn lemma_targets_round_trip(list: Seq<String>)
    ensures
        ActiveInView::Many(list.map_values(|s: String| name_item(s))).targets() == list.map_values(
            |s: String| s@,
        ),
        list.len() == 1 ==> ActiveInView::Single(list[0]@).targets() == list.map_values(
            |s: String| s@,
        ),
    decreases list.len(),
{
    if list.len() > 0 {
        lemma_targets_round_trip(list.drop_last());
        assert(list.drop_last().map_values(|s: String| name_item(s)) =~= list.map_values(
            |s: String| name_item(s),
        ).drop_last());
        assert(list.drop_last().map_values(|s: String| s@) =~= list.map_values(
            |s: String| s@,
        ).drop_last());
        assert(list.map_values(|s: String| s@) =~= list.map_values(|s: String| s@).drop_last().push(
            list.last()@,
        ));
    } else {
        assert(list.map_values(|s: String| s@) =~= Seq::<Seq<char>>::empty());
    }
    if list.len() == 1 {
        assert(list.map_values(|s: String| s@) =~= seq![list[0]@]);
    }
}

/// Why a configuration read from disk is refused.
pub enum LoadError {
    /// The file declares a format version other than 2.
    UnsupportedVersion(u32),
}

impl LoadError {
    /// The message shown for this error.
    pub fn message(&self) -> (r: String)
        ensures
            match self {
                LoadError::UnsupportedVersion(v) => r@ == "Unsupported config version: "@
                    + decimal(*v as nat) + " (expected 2)"@,
            },
    {
        match self {
            LoadError::UnsupportedVersion(v) => {
                let r = concat3(
                    &text("Unsupported config version: "),
                    &decimal_exec(*v as u64),
                    &text(" (expected 2)"),
                );
                string_of(&r)
            },
        }
    }
}

/// Accept a configuration read from disk: only format version 2 is accepted.
pub fn check_loaded_config(config: Config) -> (r: Result<Config, LoadError>)
    ensures
        config.version == CONFIG_VERSION <==> r is Ok,
        r matches Ok(c) ==> c@ == config@,
        r matches Err(e) ==> e == LoadError::UnsupportedVersion(config.version),
{
    if config.version != CONFIG_VERSION {
        Err(LoadError::UnsupportedVersion(config.version))
    } else {
        Ok(config)
    }
}

/// The value of an environment variable when it is set and not empty.
pub open spec fn set_value(o: Option<String>) -> Option<Seq<char>> {
    match o {
        Some(s) => if s@.len() > 0 {
            Some(s@)
        } else {
            None
        },
        None => None,
    }
}

/// `dir/lsfg-vk/conf.toml`.
pub open spec fn config_file_in(dir: Seq<char>) -> Seq<char> {
    path_join2(dir, "lsfg-vk"@, "conf.toml"@)
}

/// Where the configuration file lives, given the values of `LSFGVK_CONFIG` and
/// `XDG_CONFIG_HOME` when set and not empty and the user's configuration folder:
/// `LSFGVK_CONFIG`, else `lsfg-vk/conf.toml` under `XDG_CONFIG_HOME`, else under
/// the configuration folder, or under `/tmp` when there is none.
pub open spec fn config_path_spec(
    lsfgvk_config: Option<Seq<char>>,
    xdg_config_home: Option<Seq<char>>,
    config_dir: Option<Seq<char>>,
) -> Seq<char> {
    match (lsfgvk_config, xdg_config_home) {
        (Some(p), _) => p,
        (None, Some(x)) => config_file_in(x),
        (None, None) => match config_dir {
            Some(d) => config_file_in(d),
            None => config_file_in("/tmp"@),
        },
    }
}

/// Where the configuration file lives, given the values of `LSFGVK_CONFIG` and
/// `XDG_CONFIG_HOME` (each `None` when unset) and the user's configuration
/// folder (`None` when there is none).
pub fn config_path_from(
    lsfgvk_config: Option<String>,
    xdg_config_home: Option<String>,
    config_dir: Option<String>,
) -> (r: String)
    ensures
        r@ == config_path_spec(set_value(lsfgvk_config), set_value(xdg_config_home), opt_chars(config_dir)),
{
    if let Some(p) = lsfgvk_config {
        if !p.as_str().is_empty() {
            return p;
        }
    }
    if let Some(x) = xdg_config_home {
        if !x.as_str().is_empty() {
            return join2_str(x.as_str(), "lsfg-vk", "conf.toml");
        }
    }
    let dir = match config_dir {
        Some(d) => d,
        None => "/tmp".to_owned(),
    };
    join2_str(dir.as_str(), "lsfg-vk", "conf.toml")
}

/// Where the configuration file lives, given the values of `LSFGVK_CONFIG` and
/// `XDG_CONFIG_HOME` (each `None` when unset), with the user's configuration
/// folder as `dirs` reports it.
pub fn find_config_path(lsfgvk_config: Option<String>, xdg_config_home: Option<String>) -> (r:
    String)
    ensures
        exists|config_dir: Option<Seq<char>>|
            r@ == config_path_spec(set_value(lsfgvk_config), set_value(xdg_config_home), config_dir),
{
    config_path_from(lsfgvk_config, xdg_config_home, config_dir())
}

/// The GPU name on one line of `vulkaninfo --summary`, if any: a line (trimmed)
/// starting with `deviceName`, whose text between the first and second `=`
/// (trimmed, quotes removed) is not empty.
pub open spec fn gpu_line(line: Seq<char>) -> Option<Seq<char>> {
    let t = trim(line);
    if starts_with(t, "deviceName"@) {
        let parts = split(t, CharSet::One('='));
        if parts.len() > 1 {
            let name = trim_set(trim(parts[1]), CharSet::One('"'));
            if name.len() > 0 {
                Some(name)
            } else {
                None
            }
        } else {
            None
        }
    } else {
        None
    }
}

/// The GPU choices for the lines `ls`: "Default", then each GPU named, once, in
/// order.
pub open spec fn gpu_names(ls: Seq<Seq<char>>) -> Seq<Seq<char>>
    decreases ls.len(),
{
    if ls.len() == 0 {
        seq!["Default"@]
    } else {
        let prev = gpu_names(ls.drop_last());
        match gpu_line(ls.last()) {
            Some(n) => if prev.contains(n) {
                prev
            } else {
                prev.push(n)
            },
            None => prev,
        }
    }
}

fn gpu_line_exec(line: &Vec<char>) -> (r: Option<String>)
    ensures
        opt_chars(r) == gpu_line(line@),
{
    let t = trim_exec(line);
    if !starts_with_exec(&t, &text("deviceName")) {
        return None;
    }
    let parts = split_exec(&t, &CharSet::One('='));
    if parts.len() <= 1 {
        return None;
    }
    assert(parts[1]@ == parts.deep_view()[1]) by {
        crate::text::lemma_chars_deep_view(parts@[1]);
    }
    let name = trim_set_exec(&trim_exec(&parts[1]), &CharSet::One('"'));
    if name.len() > 0 {
        Some(string_of(&name))
    } else {
        None
    }
}

/// The GPU choices offered, from the output of `vulkaninfo --summary`:
/// "Default", then each device name, once, in order.
pub fn parse_gpu_names(summary: &str) -> (r: Vec<String>)
    ensures
        strings_view(r@) == gpu_names(lines(summary@)),
{
    let ls = lines_exec(&chars_of(summary));
    let ghost lv = ls.deep_view();
    let mut gpus: Vec<String> = Vec::new();
    gpus.push("Default".to_owned());
    assert(strings_view(gpus@) =~= gpu_names(lv.take(0)));
    let n = ls.len();
    let mut i: usize = 0;
    while i < n
        invariant
            n == lv.len(),
            lv == ls.deep_view(),
            lv == lines(summary@),
            i <= n,
            strings_view(gpus@) == gpu_names(lv.take(i as int)),
        decreases n - i,
    {
        assert(lv.take(i + 1).drop_last() =~= lv.take(i as int));
        assert(lv.take(i + 1).last() == ls[i as int]@);
        if let Some(name) = gpu_line_exec(&ls[i]) {
            if !strings_contain(gpus.as_slice(), &chars_of(name.as_str())) {
                let ghost before = strings_view(gpus@);
                let ghost nv = name@;
                gpus.push(name);
                assert(strings_view(gpus@) =~= before.push(nv));
            }
        }
        i = i + 1;
    }
    assert(lv.take(n as int) =~= lv);
    gpus
}

/// The GPU choices start with "Default" and name no GPU twice.
pub proof fn lemma_gpu_names_distinct(ls: Seq<Seq<char>>)
    ensures
        gpu_names(ls).len() > 0,
        gpu_names(ls)[0] == "Default"@,
        forall|i: int, j: int|
            0 <= i < j < gpu_names(ls).len() ==> gpu_names(ls)[i] != gpu_names(ls)[j],
    decreases ls.len(),
{
    if ls.len() > 0 {
        lemma_gpu_names_distinct(ls.drop_last());
        let prev = gpu_names(ls.drop_last());
        match gpu_line(ls.last()) {
            Some(n) => if !prev.contains(n) {
                let cur = prev.push(n);
                assert forall|i: int, j: int| 0 <= i < j < cur.len() implies cur[i] != cur[j] by {
                    if j == cur.len() - 1 {
                        assert(cur[i] == prev[i]);
                    } else {
                        assert(cur[i] == prev[i] && cur[j] == prev[j]);
                    }
                }
                assert(cur[0] == prev[0]);
            },
            None => {},
        }
    }
}

} // verus!
