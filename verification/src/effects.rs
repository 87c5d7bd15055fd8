//! Effect kinds, their configurations, and runnable instances.
//!
//! The set of effect kinds is a closed enumeration: each kind couples a
//! configuration type with a per-tick pixel function and (if it has any) the
//! private state the function carries from tick to tick.  An instance
//! exposes exactly two operations: `run` one tick against a window, and
//! `set_config`, which validates a configuration against the kind and keeps
//! the previous configuration on failure.

use vstd::prelude::*;

use crate::color::Rgba;
use crate::section::{set_aa_spec, Section, SubPixel, SUBPIXEL_DEN};

verus! {

/// Configuration of the solid-colour effect.
#[derive(Clone, Copy, Debug, PartialEq, Eq, Structural)]
pub struct SolidConfig {
    pub color: Rgba,
}

/// Configuration of the snake effect: a head gliding along the window.
#[derive(Clone, Copy, Debug, PartialEq, Eq, Structural)]
pub struct SnakeConfig {
    pub color: Rgba,
    /// Head movement per tick, in sub-pixel units (`SUBPIXEL_DEN` per pixel).
    pub speed: u16,
}

/// A configuration value for some effect kind.
#[derive(Clone, Copy, Debug, PartialEq, Eq, Structural)]
pub enum EffectConfig {
    Solid(SolidConfig),
    Snake(SnakeConfig),
}

/// The registered effect kinds.
#[derive(Clone, Copy, Debug, PartialEq, Eq, Structural)]
pub enum EffectKind {
    Solid,
    Snake,
}

/// The field shapes a configuration schema can describe.
#[derive(Clone, Copy, Debug, PartialEq, Eq, Structural)]
pub enum FieldKind {
    Color,
    UInt,
}

/// One field of a kind's configuration schema.
#[derive(Clone, Debug)]
pub struct SchemaField {
    pub name: String,
    pub kind: FieldKind,
}

/// The declared shape of a kind's configuration, produced at registration.
#[derive(Clone, Debug)]
pub struct ConfigSchema {
    pub fields: Vec<SchemaField>,
}

/// Whether a configuration value has the shape the kind expects.
pub open spec fn config_matches(kind: EffectKind, cfg: EffectConfig) -> bool {
    match kind {
        EffectKind::Solid => cfg is Solid,
        EffectKind::Snake => cfg is Snake,
    }
}

impl EffectKind {
    pub open spec fn spec_id(self) -> Seq<char> {
        match self {
            EffectKind::Solid => "solid"@,
            EffectKind::Snake => "snake"@,
        }
    }

    /// The stable identifier of this kind.
    pub fn id(self) -> (s: String)
        ensures
            s@ == self.spec_id(),
    {
        match self {
            EffectKind::Solid => "solid".to_owned(),
            EffectKind::Snake => "snake".to_owned(),
        }
    }

    pub open spec fn spec_default_config(self) -> EffectConfig {
        match self {
            EffectKind::Solid => EffectConfig::Solid(SolidConfig { color: Rgba::black() }),
            EffectKind::Snake => EffectConfig::Snake(
                SnakeConfig { color: Rgba::black(), speed: SUBPIXEL_DEN },
            ),
        }
    }

    /// The default configuration of this kind.
    pub fn default_config(self) -> (c: EffectConfig)
        ensures
            c == self.spec_default_config(),
            config_matches(self, c),
    {
        match self {
            EffectKind::Solid => EffectConfig::Solid(SolidConfig { color: Rgba::new(0, 0, 0, 0) }),
            EffectKind::Snake => EffectConfig::Snake(
                SnakeConfig { color: Rgba::new(0, 0, 0, 0), speed: SUBPIXEL_DEN },
            ),
        }
    }

    /// The schema of this kind's configuration.
    pub fn schema(self) -> (s: ConfigSchema)
        ensures
            match self {
                EffectKind::Solid => s.fields@.len() == 1 && s.fields@[0].name@ == "color"@
                    && s.fields@[0].kind == FieldKind::Color,
                EffectKind::Snake => s.fields@.len() == 2 && s.fields@[0].name@ == "color"@
                    && s.fields@[0].kind == FieldKind::Color && s.fields@[1].name@ == "speed"@
                    && s.fields@[1].kind == FieldKind::UInt,
            },
    {
        let mut fields: Vec<SchemaField> = Vec::new();
        fields.push(SchemaField { name: "color".to_owned(), kind: FieldKind::Color });
        match self {
            EffectKind::Solid => {},
            EffectKind::Snake => {
                fields.push(SchemaField { name: "speed".to_owned(), kind: FieldKind::UInt });
            },
        }
        ConfigSchema { fields }
    }
}

/// A running instance of the solid-colour effect (no private state).
#[derive(Clone, Copy, Debug, PartialEq, Eq, Structural)]
pub struct SolidEffect {
    pub config: SolidConfig,
}

/// A running instance of the snake effect; `head` is the private animation
/// state, the current head position in sub-pixel units.
#[derive(Clone, Copy, Debug, PartialEq, Eq, Structural)]
pub struct SnakeEffect {
    pub config: SnakeConfig,
    pub head: u32,
}

/// A runnable effect instance: one variant per registered kind.
#[derive(Clone, Copy, Debug, PartialEq, Eq, Structural)]
pub enum EffectInstance {
    Solid(SolidEffect),
    Snake(SnakeEffect),
}

pub open spec fn instance_kind(i: EffectInstance) -> EffectKind {
    match i {
        EffectInstance::Solid(_) => EffectKind::Solid,
        EffectInstance::Snake(_) => EffectKind::Snake,
    }
}

pub open spec fn instance_config(i: EffectInstance) -> EffectConfig {
    match i {
        EffectInstance::Solid(e) => EffectConfig::Solid(e.config),
        EffectInstance::Snake(e) => EffectConfig::Snake(e.config),
    }
}

/// The private animation state of an instance, as one number; what
/// `set_config` must preserve and a rebuild resets.
pub open spec fn instance_state(i: EffectInstance) -> int {
    match i {
        EffectInstance::Solid(_) => 0,
        EffectInstance::Snake(e) => e.head as int,
    }
}

/// A fresh instance configured by `cfg` (private state zeroed); the kind is
/// the one the configuration's shape belongs to.
pub open spec fn build_spec(cfg: EffectConfig) -> EffectInstance {
    match cfg {
        EffectConfig::Solid(c) => EffectInstance::Solid(SolidEffect { config: c }),
        EffectConfig::Snake(c) => EffectInstance::Snake(SnakeEffect { config: c, head: 0 }),
    }
}

/// `i` with its configuration replaced and its private state kept.
pub open spec fn with_config_spec(i: EffectInstance, cfg: EffectConfig) -> EffectInstance {
    match (i, cfg) {
        (EffectInstance::Solid(_), EffectConfig::Solid(c)) => EffectInstance::Solid(
            SolidEffect { config: c },
        ),
        (EffectInstance::Snake(e), EffectConfig::Snake(c)) => EffectInstance::Snake(
            SnakeEffect { config: c, head: e.head },
        ),
        _ => i,
    }
}

/// One tick of the solid effect: every pixel of the window becomes the
/// configured colour.
pub open spec fn solid_run_spec(cfg: SolidConfig, s: Seq<Rgba>) -> Seq<Rgba> {
    Seq::new(s.len(), |i: int| cfg.color)
}

/// One tick of the snake effect: the head advances by `speed` sub-pixel
/// units (wrapping at the window's end), the window is cleared to black and
/// the head is drawn anti-aliased at its new position.
pub open spec fn snake_run_spec(cfg: SnakeConfig, head: int, s: Seq<Rgba>) -> (Seq<Rgba>, int) {
    if s.len() == 0 {
        (s, head)
    } else {
        let span = s.len() * (SUBPIXEL_DEN as int);
        let h = (head + cfg.speed) % span;
        let cleared = Seq::new(s.len(), |i: int| Rgba::black());
        (
            set_aa_spec(cleared, h / (SUBPIXEL_DEN as int), h % (SUBPIXEL_DEN as int), cfg.color),
            h,
        )
    }
}

/// One tick of an instance on a window in logical order: the window after,
/// and the instance after (its private state may advance).
pub open spec fn instance_run_spec(i: EffectInstance, s: Seq<Rgba>) -> (EffectInstance, Seq<Rgba>) {
    match i {
        EffectInstance::Solid(e) => (i, solid_run_spec(e.config, s)),
        EffectInstance::Snake(e) => {
            let (s2, h2) = snake_run_spec(e.config, e.head as int, s);
            (EffectInstance::Snake(SnakeEffect { config: e.config, head: h2 as u32 }), s2)
        },
    }
}

/// A configuration value that does not fit the kind it was offered to.
#[derive(Clone, Copy, Debug, PartialEq, Eq, Structural)]
pub enum ConfigError {
    KindMismatch,
}

impl EffectInstance {
    /// Run one tick against the given window.
    pub fn run(&mut self, section: &mut Section)
        requires
            old(section).spec_len() <= 0xFFFFFF,
        ensures
            *final(self) == instance_run_spec(*old(self), old(section).logical()).0,
            final(section).logical() =~= instance_run_spec(*old(self), old(section).logical()).1,
            final(section).spec_len() == old(section).spec_len(),
            final(section).spec_reversed() == old(section).spec_reversed(),
    {
        match self {
            EffectInstance::Solid(e) => {
                section.fill(e.config.color);
            },
            EffectInstance::Snake(e) => {
                let len = section.len();
                if len > 0 {
                    let span: u64 = (len as u64) * (SUBPIXEL_DEN as u64);
                    let h: u64 = ((e.head as u64) + (e.config.speed as u64)) % span;
                    let whole: usize = (h / (SUBPIXEL_DEN as u64)) as usize;
                    let frac: u8 = (h % (SUBPIXEL_DEN as u64)) as u8;
                    let color = e.config.color;
                    section.fill(Rgba::new(0, 0, 0, 0));
                    section.set_aa(SubPixel { whole, frac }, &color);
                    e.head = h as u32;
                }
            },
        }
    }

    /// Replace the configuration, keeping the private state; a value of the
    /// wrong shape is rejected and the instance is left untouched.
    pub fn set_config(&mut self, cfg: &EffectConfig) -> (r: Result<(), ConfigError>)
        ensures
            r is Ok <==> config_matches(instance_kind(*old(self)), *cfg),
            r is Ok ==> *final(self) == with_config_spec(*old(self), *cfg),
            r is Err ==> *final(self) == *old(self),
    {
        match self {
            EffectInstance::Solid(e) => match cfg {
                EffectConfig::Solid(c) => {
                    e.config = *c;
                    Ok(())
                },
                _ => Err(ConfigError::KindMismatch),
            },
            EffectInstance::Snake(e) => match cfg {
                EffectConfig::Snake(c) => {
                    e.config = *c;
                    Ok(())
                },
                _ => Err(ConfigError::KindMismatch),
            },
        }
    }
}

/// No two kinds share an identifier.
pub proof fn lemma_kind_id_injective(a: EffectKind, b: EffectKind)
    requires
        a.spec_id() == b.spec_id(),
    ensures
        a == b,
{
    reveal_strlit("solid");
    reveal_strlit("snake");
    if a != b {
        assert("solid"@[1] == 'o' && "snake"@[1] == 'n');
    }
}

impl EffectKind {
    /// Whether a configuration value fits this kind.
    pub fn matches_config(self, cfg: &EffectConfig) -> (r: bool)
        ensures
            r == config_matches(self, *cfg),
    {
        match (self, cfg) {
            (EffectKind::Solid, EffectConfig::Solid(_)) => true,
            (EffectKind::Snake, EffectConfig::Snake(_)) => true,
            _ => false,
        }
    }

    /// Build a fresh instance from a configuration already known to fit.
    pub fn build_valid(self, cfg: &EffectConfig) -> (r: EffectInstance)
        requires
            config_matches(self, *cfg),
        ensures
            r == build_spec(*cfg),
            instance_kind(r) == self,
    {
        match cfg {
            EffectConfig::Solid(c) => EffectInstance::Solid(SolidEffect { config: *c }),
            EffectConfig::Snake(c) => EffectInstance::Snake(SnakeEffect { config: *c, head: 0 }),
        }
    }

    /// Build a fresh instance from a configuration; a value of the wrong
    /// shape is rejected.
    pub fn build(self, cfg: &EffectConfig) -> (r: Result<EffectInstance, ConfigError>)
        ensures
            r is Ok <==> config_matches(self, *cfg),
            r is Ok ==> r->Ok_0 == build_spec(*cfg) && instance_kind(r->Ok_0) == self
                && instance_config(r->Ok_0) == *cfg && instance_state(r->Ok_0) == 0,
    {
        match self {
            EffectKind::Solid => match cfg {
                EffectConfig::Solid(c) => Ok(EffectInstance::Solid(SolidEffect { config: *c })),
                _ => Err(ConfigError::KindMismatch),
            },
            EffectKind::Snake => match cfg {
                EffectConfig::Snake(c) => Ok(
                    EffectInstance::Snake(SnakeEffect { config: *c, head: 0 }),
                ),
                _ => Err(ConfigError::KindMismatch),
            },
        }
    }
}

/// The registry of effect kinds, in registration order; the first entry is
/// the default kind used to synthesize missing display state.
#[derive(Clone, Debug)]
pub struct EffectRegistry {
    pub kinds: Vec<EffectKind>,
}

/// Listing entry for one registered kind.
#[derive(Clone, Debug)]
pub struct EffectData {
    pub id: String,
    pub name: String,
    pub schema: ConfigSchema,
    pub default_config: EffectConfig,
}

impl EffectRegistry {
    /// Whether some registered kind carries this identifier.
    pub open spec fn registered(self, id: Seq<char>) -> bool {
        exists|k: int| 0 <= k < self.kinds@.len() && self.kinds@[k].spec_id() == id
    }

    /// At least one kind is registered and identifiers are unambiguous.
    pub open spec fn wf(self) -> bool {
        &&& self.kinds@.len() > 0
        &&& forall|k: int, l: int|
            0 <= k < l < self.kinds@.len() ==> self.kinds@[k].spec_id() != self.kinds@[l].spec_id()
    }

    /// The default kind: the first registered one.
    pub open spec fn spec_default_kind(self) -> EffectKind {
        self.kinds@[0]
    }

    /// Look an identifier up among the registered kinds.
    pub fn find(&self, id: &String) -> (r: Option<EffectKind>)
        ensures
            match r {
                Some(k) => self.kinds@.contains(k) && k.spec_id() == id@ && self.registered(id@),
                None => !self.registered(id@),
            },
    {
        let n = self.kinds.len();
        let mut k: usize = 0;
        while k < n
            invariant
                k <= n,
                n == self.kinds@.len(),
                forall|j: int| 0 <= j < k ==> self.kinds@[j].spec_id() != id@,
            decreases n - k,
        {
            let kind = self.kinds[k];
            if kind.id() == *id {
                return Some(kind);
            }
            k = k + 1;
        }
        None
    }

    pub fn default_kind(&self) -> (k: EffectKind)
        requires
            self.wf(),
        ensures
            k == self.spec_default_kind(),
    {
        self.kinds[0]
    }

    /// The listing the API serves: one entry per kind, in order.
    pub fn list(&self) -> (r: Vec<EffectData>)
        ensures
            r@.len() == self.kinds@.len(),
            forall|j: int|
                0 <= j < r@.len() ==> #[trigger] r@[j].id@ == self.kinds@[j].spec_id()
                    && r@[j].name@ == self.kinds@[j].spec_id() && r@[j].default_config
                    == self.kinds@[j].spec_default_config(),
    {
        let n = self.kinds.len();
        let mut out: Vec<EffectData> = Vec::new();
        let mut k: usize = 0;
        while k < n
            invariant
                k <= n,
                n == self.kinds@.len(),
                out@.len() == k,
                forall|j: int|
                    0 <= j < k ==> #[trigger] out@[j].id@ == self.kinds@[j].spec_id()
                        && out@[j].name@ == self.kinds@[j].spec_id() && out@[j].default_config
                        == self.kinds@[j].spec_default_config(),
            decreases n - k,
        {
            let kind = self.kinds[k];
            out.push(
                EffectData {
                    id: kind.id(),
                    name: kind.id(),
                    schema: kind.schema(),
                    default_config: kind.default_config(),
                },
            );
            k = k + 1;
        }
        out
    }
}

/// The registry of every effect kind this library ships.
pub fn all_internal_effects() -> (r: EffectRegistry)
    ensures
        r.kinds@ =~= seq![EffectKind::Solid, EffectKind::Snake],
        r.wf(),
{
    proof {
        reveal_strlit("solid");
        reveal_strlit("snake");
    }
    let mut kinds: Vec<EffectKind> = Vec::new();
    kinds.push(EffectKind::Solid);
    kinds.push(EffectKind::Snake);
    proof {
        assert(kinds@[0] == EffectKind::Solid);
        assert(kinds@[1] == EffectKind::Snake);
        assert("solid"@[1] == 'o' && "snake"@[1] == 'n');
    }
    EffectRegistry { kinds }
}

} // verus!
