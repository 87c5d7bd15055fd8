//! Persisted configuration: physical topology, display state, presets.
//!
//! These are the values the store keeps as JSON files; the library holds
//! them in memory and the I/O shell around it reads and writes the files.
//! Reference sets (segment ids on a group or a display-state row, group ids
//! on a row, preset names) are kept as vectors, the in-memory form of the
//! persisted sets and maps; preset names are pairwise distinct by invariant,
//! and validation deduplicates the reference lists (first occurrence kept).
//!
//! Every type has a mathematical view (strings as character sequences,
//! vectors as sequences); the contracts of the runner speak of these views.

use vstd::prelude::*;

use crate::color::CHANNEL_MAX;
use crate::effects::EffectConfig;

verus! {

/// A stable reference to one segment: strip index and segment index within
/// the strip.
#[derive(Clone, Copy, Debug, Default, Hash, PartialEq, Eq, Structural)]
pub struct SegmentId {
    pub strip_idx: usize,
    pub segment_idx: usize,
}

/// A named contiguous run of pixels within a strip, drawn in reverse
/// physical order if `reversed`.
#[derive(Clone, Debug)]
pub struct Segment {
    pub name: String,
    pub length: usize,
    pub reversed: bool,
}

/// Mathematical view of a `Segment`.
pub struct SegmentV {
    pub name: Seq<char>,
    pub length: usize,
    pub reversed: bool,
}

impl View for Segment {
    type V = SegmentV;

    open spec fn view(&self) -> SegmentV {
        SegmentV { name: self.name@, length: self.length, reversed: self.reversed }
    }
}

/// One physical chain of pixels: a base offset and consecutive segments.
#[derive(Clone, Debug)]
pub struct Strip {
    pub offset: usize,
    pub segments: Vec<Segment>,
}

/// Mathematical view of a `Strip`.
pub struct StripV {
    pub offset: usize,
    pub segments: Seq<SegmentV>,
}

impl View for Strip {
    type V = StripV;

    open spec fn view(&self) -> StripV {
        StripV { offset: self.offset, segments: self.segments@.map_values(|s: Segment| s@) }
    }
}

/// A named set of segment references usable as one assignment target.
#[derive(Clone, Debug)]
pub struct Group {
    pub id: String,
    pub name: String,
    pub segment_ids: Vec<SegmentId>,
}

/// Mathematical view of a `Group`.
pub struct GroupV {
    pub id: Seq<char>,
    pub name: Seq<char>,
    pub segment_ids: Seq<SegmentId>,
}

impl View for Group {
    type V = GroupV;

    open spec fn view(&self) -> GroupV {
        GroupV { id: self.id@, name: self.name@, segment_ids: self.segment_ids@ }
    }
}

/// Persisted topology and output settings.  `brightness` is a fixed-point
/// factor on the channel scale (`CHANNEL_MAX` stands for 1).
#[derive(Clone, Debug)]
pub struct GlobalConfig {
    pub brightness: u16,
    pub as_srgb: bool,
    pub strips: Vec<Strip>,
    pub groups: Vec<Group>,
}

/// Mathematical view of a `GlobalConfig`.
pub struct GlobalConfigV {
    pub brightness: u16,
    pub as_srgb: bool,
    pub strips: Seq<StripV>,
    pub groups: Seq<GroupV>,
}

impl View for GlobalConfig {
    type V = GlobalConfigV;

    open spec fn view(&self) -> GlobalConfigV {
        GlobalConfigV {
            brightness: self.brightness,
            as_srgb: self.as_srgb,
            strips: self.strips@.map_values(|s: Strip| s@),
            groups: self.groups@.map_values(|g: Group| g@),
        }
    }
}

impl Default for GlobalConfig {
    /// Full brightness, linear output, no topology.
    fn default() -> (c: GlobalConfig)
        ensures
            c@.brightness == CHANNEL_MAX,
            !c@.as_srgb,
            c@.strips =~= Seq::<StripV>::empty(),
            c@.groups =~= Seq::<GroupV>::empty(),
    {
        GlobalConfig {
            brightness: CHANNEL_MAX,
            as_srgb: false,
            strips: Vec::new(),
            groups: Vec::new(),
        }
    }
}

/// One assignment row: an effect, its configuration, and the segments and
/// groups it targets.
#[derive(Clone, Debug)]
pub struct DisplayStateEffect {
    pub effect_id: String,
    pub config: EffectConfig,
    pub segment_ids: Vec<SegmentId>,
    pub group_ids: Vec<String>,
}

/// Mathematical view of one assignment row.
pub struct RowV {
    pub effect_id: Seq<char>,
    pub config: EffectConfig,
    pub segment_ids: Seq<SegmentId>,
    pub group_ids: Seq<Seq<char>>,
}

impl View for DisplayStateEffect {
    type V = RowV;

    open spec fn view(&self) -> RowV {
        RowV {
            effect_id: self.effect_id@,
            config: self.config,
            segment_ids: self.segment_ids@,
            group_ids: self.group_ids@.map_values(|g: String| g@),
        }
    }
}

/// The full persisted set of effect assignments currently in force.
#[derive(Clone, Debug)]
pub struct DisplayState {
    pub effects: Vec<DisplayStateEffect>,
}

impl View for DisplayState {
    type V = Seq<RowV>;

    open spec fn view(&self) -> Seq<RowV> {
        self.effects@.map_values(|r: DisplayStateEffect| r@)
    }
}

impl Default for DisplayState {
    fn default() -> (s: DisplayState)
        ensures
            s@ =~= Seq::<RowV>::empty(),
    {
        DisplayState { effects: Vec::new() }
    }
}

impl DisplayStateEffect {
    /// A structurally identical copy.
    pub fn duplicate(&self) -> (r: DisplayStateEffect)
        ensures
            r@ == self@,
    {
        let mut segment_ids: Vec<SegmentId> = Vec::new();
        let mut k: usize = 0;
        while k < self.segment_ids.len()
            invariant
                k <= self.segment_ids@.len(),
                segment_ids@ =~= self.segment_ids@.take(k as int),
            decreases self.segment_ids@.len() - k,
        {
            segment_ids.push(self.segment_ids[k]);
            k = k + 1;
        }
        let mut group_ids: Vec<String> = Vec::new();
        let mut k: usize = 0;
        while k < self.group_ids.len()
            invariant
                k <= self.group_ids@.len(),
                group_ids@.len() == k,
                forall|j: int| 0 <= j < k ==> #[trigger] group_ids@[j]@ == self.group_ids@[j]@,
            decreases self.group_ids@.len() - k,
        {
            group_ids.push(self.group_ids[k].clone());
            k = k + 1;
        }
        let r = DisplayStateEffect {
            effect_id: self.effect_id.clone(),
            config: self.config,
            segment_ids,
            group_ids,
        };
        proof {
            assert(r@.group_ids =~= self@.group_ids);
            assert(r@.segment_ids =~= self@.segment_ids);
        }
        r
    }
}

impl DisplayState {
    /// A structurally identical copy.
    pub fn duplicate(&self) -> (r: DisplayState)
        ensures
            r@ == self@,
    {
        let mut effects: Vec<DisplayStateEffect> = Vec::new();
        let mut k: usize = 0;
        while k < self.effects.len()
            invariant
                k <= self.effects@.len(),
                effects@.len() == k,
                forall|j: int| 0 <= j < k ==> #[trigger] effects@[j]@ == self.effects@[j]@,
            decreases self.effects@.len() - k,
        {
            effects.push(self.effects[k].duplicate());
            k = k + 1;
        }
        let r = DisplayState { effects };
        proof {
            assert(r@ =~= self@);
        }
        r
    }
}

/// Named snapshots of display states, keyed by name.
#[derive(Clone, Debug)]
pub struct Presets(pub Vec<(String, DisplayState)>);

impl View for Presets {
    type V = Seq<(Seq<char>, Seq<RowV>)>;

    open spec fn view(&self) -> Seq<(Seq<char>, Seq<RowV>)> {
        self.0@.map_values(|e: (String, DisplayState)| (e.0@, e.1@))
    }
}

impl Default for Presets {
    fn default() -> (p: Presets)
        ensures
            p@ =~= Seq::<(Seq<char>, Seq<RowV>)>::empty(),
    {
        Presets(Vec::new())
    }
}

/// The first snapshot stored under `name`, if any.
pub open spec fn preset_find(s: Seq<(Seq<char>, Seq<RowV>)>, name: Seq<char>) -> Option<Seq<RowV>>
    decreases s.len(),
{
    if s.len() == 0 {
        None
    } else if s[0].0 == name {
        Some(s[0].1)
    } else {
        preset_find(s.drop_first(), name)
    }
}

/// Preset names are pairwise distinct.
pub open spec fn presets_wf(s: Seq<(Seq<char>, Seq<RowV>)>) -> bool {
    forall|i: int, j: int| 0 <= i < j < s.len() ==> s[i].0 != s[j].0
}

/// The first entry stored under `name`, or `-1`.
pub open spec fn preset_index(s: Seq<(Seq<char>, Seq<RowV>)>, name: Seq<char>) -> int
    decreases s.len(),
{
    if s.len() == 0 {
        -1
    } else if s[0].0 == name {
        0
    } else {
        let r = preset_index(s.drop_first(), name);
        if r == -1 {
            -1
        } else {
            r + 1
        }
    }
}

/// `preset_index` finds the first entry under `name` and `preset_find`
/// returns that entry's snapshot.
pub proof fn lemma_preset_index(s: Seq<(Seq<char>, Seq<RowV>)>, name: Seq<char>)
    ensures
        preset_index(s, name) == -1 || 0 <= preset_index(s, name) < s.len(),
        (preset_find(s, name) is Some) <==> 0 <= preset_index(s, name) < s.len(),
        0 <= preset_index(s, name) ==> s[preset_index(s, name)].0 == name && preset_find(s, name)
            == Some(s[preset_index(s, name)].1) && forall|j: int|
            0 <= j < preset_index(s, name) ==> s[j].0 != name,
        preset_index(s, name) == -1 ==> forall|j: int| 0 <= j < s.len() ==> s[j].0 != name,
    decreases s.len(),
{
    if s.len() > 0 && s[0].0 != name {
        let rest = s.drop_first();
        lemma_preset_index(rest, name);
        assert(forall|k: int| 0 < k < s.len() ==> s[k] == #[trigger] rest[k - 1]);
        let pi = preset_index(s, name);
        if 0 <= pi {
            assert(s[pi] == rest[pi - 1]);
            assert forall|j: int| 0 <= j < pi implies s[j].0 != name by {
                if j > 0 {
                    assert(s[j] == rest[j - 1]);
                }
            }
        } else {
            assert forall|j: int| 0 <= j < s.len() implies s[j].0 != name by {
                if j > 0 {
                    assert(s[j] == rest[j - 1]);
                }
            }
        }
    }
}

/// Replacing an entry's snapshot changes only what is stored under its name.
pub proof fn lemma_preset_find_update(
    s: Seq<(Seq<char>, Seq<RowV>)>,
    j: int,
    v: (Seq<char>, Seq<RowV>),
    name: Seq<char>,
)
    requires
        0 <= j < s.len(),
        v.0 == s[j].0,
        forall|i: int| 0 <= i < j ==> s[i].0 != v.0,
    ensures
        preset_find(s.update(j, v), name) == if name == v.0 {
            Some(v.1)
        } else {
            preset_find(s, name)
        },
    decreases s.len(),
{
    let s2 = s.update(j, v);
    if j == 0 {
        assert(s2[0] == v);
        if name != v.0 {
            assert(s2.drop_first() =~= s.drop_first());
        }
    } else {
        assert(s2[0] == s[0]);
        assert(s2.drop_first() =~= s.drop_first().update(j - 1, v));
        assert(forall|i: int| 0 < i < s.len() ==> s[i] == #[trigger] s.drop_first()[i - 1]);
        lemma_preset_find_update(s.drop_first(), j - 1, v, name);
    }
}

/// Appending a fresh name changes only what is stored under it.
pub proof fn lemma_preset_find_push(
    s: Seq<(Seq<char>, Seq<RowV>)>,
    v: (Seq<char>, Seq<RowV>),
    name: Seq<char>,
)
    ensures
        preset_find(s.push(v), name) == if name == v.0 && preset_find(s, name) is None {
            Some(v.1)
        } else {
            preset_find(s, name)
        },
    decreases s.len(),
{
    if s.len() == 0 {
        assert(s.push(v)[0] == v);
        assert(s.push(v).drop_first() =~= Seq::<(Seq<char>, Seq<RowV>)>::empty());
    } else {
        assert(s.push(v)[0] == s[0]);
        assert(s.push(v).drop_first() =~= s.drop_first().push(v));
        lemma_preset_find_push(s.drop_first(), v, name);
    }
}

/// Removing an entry removes exactly what its name stored, provided names
/// are distinct.
pub proof fn lemma_preset_find_remove(s: Seq<(Seq<char>, Seq<RowV>)>, j: int, name: Seq<char>)
    requires
        0 <= j < s.len(),
        presets_wf(s),
    ensures
        preset_find(s.remove(j), name) == if name == s[j].0 {
            None::<Seq<RowV>>
        } else {
            preset_find(s, name)
        },
    decreases s.len(),
{
    let s2 = s.remove(j);
    if j == 0 {
        assert(s2 =~= s.drop_first());
        if name == s[0].0 {
            lemma_preset_index(s2, name);
            if 0 <= preset_index(s2, name) {
                assert(s[preset_index(s2, name) + 1] == s2[preset_index(s2, name)]);
            }
        }
    } else {
        assert(s2[0] == s[0]);
        assert(s2.drop_first() =~= s.drop_first().remove(j - 1));
        assert(forall|i: int| 0 < i < s.len() ==> s[i] == #[trigger] s.drop_first()[i - 1]);
        lemma_preset_find_remove(s.drop_first(), j - 1, name);
    }
}

/// Keep only the first occurrence of every element, in order: the list form
/// of turning a sequence back into the set it stores.
pub open spec fn dedup_first<A>(s: Seq<A>) -> Seq<A>
    decreases s.len(),
{
    if s.len() == 0 {
        s
    } else {
        let rest = dedup_first(s.drop_last());
        if s.drop_last().contains(s.last()) {
            rest
        } else {
            rest.push(s.last())
        }
    }
}

/// Deduplication keeps exactly the elements that were there.
pub proof fn lemma_dedup_first_membership<A>(s: Seq<A>, x: A)
    ensures
        dedup_first(s).contains(x) <==> s.contains(x),
    decreases s.len(),
{
    if s.len() > 0 {
        let front = s.drop_last();
        lemma_dedup_first_membership(front, x);
        assert(s.contains(x) <==> front.contains(x) || s.last() == x) by {
            if s.contains(x) {
                let w = choose|i: int| 0 <= i < s.len() && s[i] == x;
                if w < s.len() - 1 {
                    assert(front[w] == x);
                }
            }
            if front.contains(x) {
                let w = choose|i: int| 0 <= i < front.len() && front[i] == x;
                assert(s[w] == x);
            }
        }
        if !front.contains(s.last()) {
            let d = dedup_first(front);
            assert(dedup_first(s).contains(x) <==> d.contains(x) || s.last() == x) by {
                if dedup_first(s).contains(x) {
                    let w = choose|i: int| 0 <= i < d.push(s.last()).len() && d.push(s.last())[i]
                        == x;
                    if w < d.len() {
                        assert(d[w] == x);
                    }
                }
                if d.contains(x) {
                    let w = choose|i: int| 0 <= i < d.len() && d[i] == x;
                    assert(d.push(s.last())[w] == x);
                }
                assert(d.push(s.last())[d.len() as int] == s.last());
            }
        }
    }
}

/// Whether `sid` refers to an existing strip and segment.
pub open spec fn seg_exists(cfg: GlobalConfigV, sid: SegmentId) -> bool {
    sid.strip_idx < cfg.strips.len() && sid.segment_idx < cfg.strips[
        sid.strip_idx as int
    ].segments.len()
}

/// Whether some group carries the identifier `gid`.
pub open spec fn group_exists(cfg: GlobalConfigV, gid: Seq<char>) -> bool {
    exists|k: int| 0 <= k < cfg.groups.len() && cfg.groups[k].id == gid
}

/// The first group carrying `gid`, or `-1`.
pub open spec fn group_index(groups: Seq<GroupV>, gid: Seq<char>) -> int
    decreases groups.len(),
{
    if groups.len() == 0 {
        -1
    } else if groups[0].id == gid {
        0
    } else {
        let r = group_index(groups.drop_first(), gid);
        if r == -1 {
            -1
        } else {
            r + 1
        }
    }
}

/// `group_index` finds the first group carrying `gid`, if there is one.
pub proof fn lemma_group_index(groups: Seq<GroupV>, gid: Seq<char>)
    ensures
        group_index(groups, gid) == -1 || 0 <= group_index(groups, gid) < groups.len(),
        (exists|k: int| 0 <= k < groups.len() && groups[k].id == gid) <==> 0 <= group_index(
            groups,
            gid,
        ) < groups.len(),
        0 <= group_index(groups, gid) ==> groups[group_index(groups, gid)].id == gid && forall|
            j: int,
        | 0 <= j < group_index(groups, gid) ==> groups[j].id != gid,
    decreases groups.len(),
{
    if groups.len() > 0 && groups[0].id != gid {
        let rest = groups.drop_first();
        lemma_group_index(rest, gid);
        let r = group_index(rest, gid);
        assert(group_index(groups, gid) == if r == -1 {
            -1int
        } else {
            r + 1
        });
        assert(forall|k: int| 0 < k < groups.len() ==> groups[k] == #[trigger] rest[k - 1]);
        if exists|k: int| 0 <= k < groups.len() && groups[k].id == gid {
            let w = choose|k: int| 0 <= k < groups.len() && groups[k].id == gid;
            assert(rest[w - 1].id == gid);
        }
        let gi = group_index(groups, gid);
        if 0 <= gi {
            assert(groups[gi] == rest[gi - 1]);
            assert forall|j: int| 0 <= j < gi implies groups[j].id != gid by {
                if j > 0 {
                    assert(groups[j] == rest[j - 1]);
                }
            }
        }
    }
}

impl GlobalConfig {
    /// Check a segment reference against the current topology.
    pub fn check_segment(&self, sid: &SegmentId) -> (r: bool)
        ensures
            r == seg_exists(self@, *sid),
    {
        sid.strip_idx < self.strips.len() && sid.segment_idx < self.strips[
            sid.strip_idx
        ].segments.len()
    }

    /// Find the first group carrying `gid`, if any.
    pub fn find_group(&self, gid: &String) -> (r: Option<usize>)
        ensures
            match r {
                Some(k) => k == group_index(self@.groups, gid@) && k < self@.groups.len()
                    && self@.groups[k as int].id == gid@ && group_exists(self@, gid@),
                None => !group_exists(self@, gid@),
            },
    {
        proof {
            lemma_group_index(self@.groups, gid@);
        }
        let n = self.groups.len();
        let mut k: usize = 0;
        while k < n
            invariant
                k <= n,
                n == self@.groups.len(),
                forall|j: int| 0 <= j < k ==> self@.groups[j].id != gid@,
            decreases n - k,
        {
            if self.groups[k].id == *gid {
                proof {
                    assert(self@.groups[k as int].id == gid@);
                    assert(group_index(self@.groups, gid@) == k) by {
                        lemma_group_index(self@.groups, gid@);
                        let gi = group_index(self@.groups, gid@);
                        if gi < k {
                            assert(self@.groups[gi].id != gid@);
                        }
                    }
                }
                return Some(k);
            }
            k = k + 1;
        }
        None
    }
}

/// Total pixel extent of the first `k` segments of a strip, measured from
/// the strip's start: `offset + length(seg 0) + ... + length(seg k-1)`.
pub open spec fn strip_extent(strip: StripV, k: int) -> int
    decreases k,
{
    if k <= 0 {
        strip.offset as int
    } else {
        strip_extent(strip, k - 1) + strip.segments[k - 1].length
    }
}

/// The extent is monotone in the number of segments counted.
pub proof fn lemma_strip_extent_monotone(strip: StripV, k: int, l: int)
    requires
        0 <= k <= l,
    ensures
        strip_extent(strip, k) <= strip_extent(strip, l),
    decreases l - k,
{
    if k < l {
        lemma_strip_extent_monotone(strip, k, l - 1);
    }
}

/// In-memory holder of one persisted value.  Reading and writing the file
/// itself belongs to the I/O shell; the holder only carries the value the
/// library works on.
pub struct Config<T> {
    pub inner: T,
}

/// A value that lives in one named file of the configuration directory.
pub trait ConfigFile {
    spec fn spec_file_name() -> Seq<char>;

    /// The file name the value is stored under.
    fn file_name() -> (s: String)
        ensures
            s@ == Self::spec_file_name(),
    ;
}

impl ConfigFile for GlobalConfig {
    open spec fn spec_file_name() -> Seq<char> {
        "config.json"@
    }

    fn file_name() -> (s: String) {
        "config.json".to_owned()
    }
}

impl ConfigFile for DisplayState {
    open spec fn spec_file_name() -> Seq<char> {
        "state.json"@
    }

    fn file_name() -> (s: String) {
        "state.json".to_owned()
    }
}

impl ConfigFile for Presets {
    open spec fn spec_file_name() -> Seq<char> {
        "presets.json"@
    }

    fn file_name() -> (s: String) {
        "presets.json".to_owned()
    }
}

impl<T> Config<T> {
    pub fn new(inner: T) -> (c: Config<T>)
        ensures
            c.inner == inner,
    {
        Config { inner }
    }

    /// Overwrite the held value.
    pub fn set(&mut self, val: T)
        ensures
            final(self).inner == val,
    {
        self.inner = val;
    }

    /// Overwrite the held value and hand the previous one back.
    pub fn replace(&mut self, val: T) -> (prev: T)
        ensures
            final(self).inner == val,
            prev == old(self).inner,
    {
        let mut val = val;
        core::mem::swap(&mut self.inner, &mut val);
        val
    }
}

} // verus!
