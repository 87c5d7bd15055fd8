//! The scheduler and reconciler.
//!
//! The runner holds the live topology and display configuration, the table
//! of running effect instances, and the physical surface.  Configuration
//! mutations go through validation: dangling references are dropped,
//! over-long strips are truncated, unknown effect identifiers fall back to
//! the default kind, and the instance table is reconciled so that a target
//! whose effect kind is unchanged keeps its running instance (and with it
//! its private animation state), while a change of kind rebuilds the
//! instance from scratch.  One `tick` runs every table entry against its
//! resolved sections and encodes the composed frame for the transport.

use vstd::prelude::*;

use crate::color::Rgba;
use crate::config::{
    dedup_first, group_exists, group_index, lemma_dedup_first_membership, lemma_preset_find_push, lemma_preset_find_remove,
    lemma_preset_find_update, lemma_preset_index, lemma_strip_extent_monotone, preset_find,
    preset_index, presets_wf, seg_exists, strip_extent, Config, DisplayState, DisplayStateEffect,
    GlobalConfig, GlobalConfigV, Group, GroupV, Presets, RowV, Segment, SegmentId, SegmentV, Strip,
    StripV,
};
use crate::controller::{pixel_encoded, Controller, LEDS_PER_STRIP, STRIPS};
use crate::effects::{
    build_spec, config_matches, instance_kind, instance_run_spec, instance_state, lemma_kind_id_injective,
    with_config_spec, ConfigError, EffectConfig, EffectInstance, EffectKind, EffectRegistry,
};
use crate::notify::ChangeNotifier;
use crate::section::Section;

verus! {

/// The unit of effect assignment: one segment, or one group by identifier.
#[derive(Debug)]
pub enum EffectTarget {
    Segment(SegmentId),
    Group(String),
}

/// Mathematical view of an `EffectTarget`.
pub enum TargetV {
    Segment(SegmentId),
    Group(Seq<char>),
}

impl View for EffectTarget {
    type V = TargetV;

    open spec fn view(&self) -> TargetV {
        match *self {
            EffectTarget::Segment(sid) => TargetV::Segment(sid),
            EffectTarget::Group(ref g) => TargetV::Group(g@),
        }
    }
}

impl EffectTarget {
    /// A structurally identical copy.
    pub fn duplicate(&self) -> (r: EffectTarget)
        ensures
            r@ == self@,
    {
        match self {
            EffectTarget::Segment(sid) => EffectTarget::Segment(*sid),
            EffectTarget::Group(g) => EffectTarget::Group(g.clone()),
        }
    }

    /// Whether two targets address the same thing.
    pub fn matches(&self, other: &EffectTarget) -> (r: bool)
        ensures
            r == (self@ == other@),
    {
        match (self, other) {
            (EffectTarget::Segment(a), EffectTarget::Segment(b)) => *a == *b,
            (EffectTarget::Group(a), EffectTarget::Group(b)) => *a == *b,
            _ => false,
        }
    }
}

/// One live table entry: the effect kind the target currently runs, and the
/// running instance with its private state.
#[derive(Debug)]
pub struct RunningEffect {
    pub effect_id: String,
    pub instance: EffectInstance,
}

/// Mathematical view of a `RunningEffect`.
pub struct RunningV {
    pub effect_id: Seq<char>,
    pub instance: EffectInstance,
}

impl View for RunningEffect {
    type V = RunningV;

    open spec fn view(&self) -> RunningV {
        RunningV { effect_id: self.effect_id@, instance: self.instance }
    }
}

/// View of the whole live table, in table order.
pub open spec fn table_view(t: Seq<(EffectTarget, RunningEffect)>) -> Seq<(TargetV, RunningV)> {
    t.map_values(|e: (EffectTarget, RunningEffect)| (e.0@, e.1@))
}

/// The first entry for `key`, or `-1`.
pub open spec fn table_index(t: Seq<(TargetV, RunningV)>, key: TargetV) -> int
    decreases t.len(),
{
    if t.len() == 0 {
        -1
    } else if t[0].0 == key {
        0
    } else {
        let r = table_index(t.drop_first(), key);
        if r == -1 {
            -1
        } else {
            r + 1
        }
    }
}

pub proof fn lemma_table_index(t: Seq<(TargetV, RunningV)>, key: TargetV)
    ensures
        table_index(t, key) == -1 || 0 <= table_index(t, key) < t.len(),
        (exists|k: int| 0 <= k < t.len() && t[k].0 == key) <==> 0 <= table_index(t, key) < t.len(),
        0 <= table_index(t, key) ==> t[table_index(t, key)].0 == key && forall|j: int|
            0 <= j < table_index(t, key) ==> t[j].0 != key,
        table_index(t, key) == -1 ==> forall|j: int| 0 <= j < t.len() ==> t[j].0 != key,
    decreases t.len(),
{
    if t.len() > 0 && t[0].0 != key {
        let rest = t.drop_first();
        lemma_table_index(rest, key);
        assert(forall|k: int| 0 < k < t.len() ==> t[k] == #[trigger] rest[k - 1]);
        if exists|k: int| 0 <= k < t.len() && t[k].0 == key {
            let w = choose|k: int| 0 <= k < t.len() && t[k].0 == key;
            assert(rest[w - 1].0 == key);
        }
        let ti = table_index(t, key);
        if 0 <= ti {
            assert(t[ti] == rest[ti - 1]);
            assert forall|j: int| 0 <= j < ti implies t[j].0 != key by {
                if j > 0 {
                    assert(t[j] == rest[j - 1]);
                }
            }
        } else {
            assert forall|j: int| 0 <= j < t.len() implies t[j].0 != key by {
                if j > 0 {
                    assert(t[j] == rest[j - 1]);
                }
            }
        }
    }
}

/// Table keys are pairwise distinct.
pub open spec fn keys_distinct(t: Seq<(TargetV, RunningV)>) -> bool {
    forall|i: int, j: int| 0 <= i < j < t.len() ==> t[i].0 != t[j].0
}

/// Every entry's running instance is of the kind its identifier names.
pub open spec fn table_kinds_ok(t: Seq<(TargetV, RunningV)>) -> bool {
    forall|i: int|
        0 <= i < t.len() ==> instance_kind((#[trigger] t[i]).1.instance).spec_id()
            == t[i].1.effect_id
}

/// Reconcile one target against the table: a missing entry is built fresh;
/// an entry of the same kind keeps its instance and only takes the new
/// configuration; an entry of another kind is rebuilt from scratch.
pub open spec fn upsert(
    t: Seq<(TargetV, RunningV)>,
    key: TargetV,
    id: Seq<char>,
    cfg: EffectConfig,
) -> Seq<(TargetV, RunningV)> {
    let j = table_index(t, key);
    if j == -1 {
        t.push((key, RunningV { effect_id: id, instance: build_spec(cfg) }))
    } else if t[j].1.effect_id == id {
        t.update(
            j,
            (t[j].0, RunningV { effect_id: id, instance: with_config_spec(t[j].1.instance, cfg) }),
        )
    } else {
        t.update(j, (t[j].0, RunningV { effect_id: id, instance: build_spec(cfg) }))
    }
}

/// The targets of one row, segments first, each in row order.
pub open spec fn row_targets(r: RowV) -> Seq<TargetV> {
    r.segment_ids.map_values(|s: SegmentId| TargetV::Segment(s)) + r.group_ids.map_values(
        |g: Seq<char>| TargetV::Group(g),
    )
}

/// Fold `upsert` over a list of targets sharing one row's kind and config.
pub open spec fn apply_targets(
    t: Seq<(TargetV, RunningV)>,
    ts: Seq<TargetV>,
    id: Seq<char>,
    cfg: EffectConfig,
) -> Seq<(TargetV, RunningV)>
    decreases ts.len(),
{
    if ts.len() == 0 {
        t
    } else {
        apply_targets(upsert(t, ts[0], id, cfg), ts.drop_first(), id, cfg)
    }
}

/// Fold the reconciliation over all rows, in row order.
pub open spec fn apply_rows(t: Seq<(TargetV, RunningV)>, rows: Seq<RowV>) -> Seq<
    (TargetV, RunningV),
>
    decreases rows.len(),
{
    if rows.len() == 0 {
        t
    } else {
        apply_rows(
            apply_targets(t, row_targets(rows[0]), rows[0].effect_id, rows[0].config),
            rows.drop_first(),
        )
    }
}

pub proof fn lemma_apply_targets_snoc(
    t: Seq<(TargetV, RunningV)>,
    ts: Seq<TargetV>,
    x: TargetV,
    id: Seq<char>,
    cfg: EffectConfig,
)
    ensures
        apply_targets(t, ts.push(x), id, cfg) == upsert(apply_targets(t, ts, id, cfg), x, id, cfg),
    decreases ts.len(),
{
    if ts.len() == 0 {
        assert(ts.push(x)[0] == x);
        assert(ts.push(x).drop_first() =~= Seq::<TargetV>::empty());
        assert(apply_targets(upsert(t, x, id, cfg), Seq::<TargetV>::empty(), id, cfg) == upsert(
            t,
            x,
            id,
            cfg,
        ));
    } else {
        assert(ts.push(x)[0] == ts[0]);
        assert(ts.push(x).drop_first() =~= ts.drop_first().push(x));
        lemma_apply_targets_snoc(upsert(t, ts[0], id, cfg), ts.drop_first(), x, id, cfg);
        assert(apply_targets(t, ts, id, cfg) == apply_targets(
            upsert(t, ts[0], id, cfg),
            ts.drop_first(),
            id,
            cfg,
        ));
    }
}

pub proof fn lemma_apply_rows_snoc(t: Seq<(TargetV, RunningV)>, rows: Seq<RowV>, r: RowV)
    ensures
        apply_rows(t, rows.push(r)) == apply_targets(
            apply_rows(t, rows),
            row_targets(r),
            r.effect_id,
            r.config,
        ),
    decreases rows.len(),
{
    if rows.len() == 0 {
        assert(rows.push(r)[0] == r);
        assert(rows.push(r).drop_first() =~= Seq::<RowV>::empty());
        assert(apply_rows(
            apply_targets(t, row_targets(r), r.effect_id, r.config),
            Seq::<RowV>::empty(),
        ) == apply_targets(t, row_targets(r), r.effect_id, r.config));
    } else {
        assert(rows.push(r)[0] == rows[0]);
        assert(rows.push(r).drop_first() =~= rows.drop_first().push(r));
        lemma_apply_rows_snoc(
            apply_targets(t, row_targets(rows[0]), rows[0].effect_id, rows[0].config),
            rows.drop_first(),
            r,
        );
        assert(apply_rows(t, rows) == apply_rows(
            apply_targets(t, row_targets(rows[0]), rows[0].effect_id, rows[0].config),
            rows.drop_first(),
        ));
    }
}

/// A pixel run in logical order under an orientation flag: reversed windows
/// read back to front.
pub open spec fn orient(s: Seq<Rgba>, reversed: bool) -> Seq<Rgba> {
    if reversed {
        Seq::new(s.len(), |i: int| s[s.len() - 1 - i])
    } else {
        s
    }
}

/// The segments one table entry addresses: a segment target is itself; a
/// group target is looked up by identifier and contributes its segments, or
/// nothing (skipped for this tick) if the group is gone.
pub open spec fn resolve_target(cfg: GlobalConfigV, t: TargetV) -> Seq<SegmentId> {
    match t {
        TargetV::Segment(sid) => seq![sid],
        TargetV::Group(gid) => {
            let gi = group_index(cfg.groups, gid);
            if gi == -1 {
                Seq::empty()
            } else {
                cfg.groups[gi].segment_ids
            }
        },
    }
}

/// One instance run over one segment of the flat pixel buffer: the window
/// starting at the segment's absolute offset is handed to the instance in
/// logical order and the result written back; a dangling reference leaves
/// everything untouched (skipped for this tick).
pub open spec fn run_segment(
    cs: Seq<Rgba>,
    cfg: GlobalConfigV,
    inst: EffectInstance,
    sid: SegmentId,
) -> (Seq<Rgba>, EffectInstance) {
    if !seg_exists(cfg, sid) {
        (cs, inst)
    } else {
        let strip = cfg.strips[sid.strip_idx as int];
        let seg = strip.segments[sid.segment_idx as int];
        let base = sid.strip_idx * (LEDS_PER_STRIP as int) + strip_extent(
            strip,
            sid.segment_idx as int,
        );
        let win = cs.subrange(base, base + seg.length);
        let run = instance_run_spec(inst, orient(win, seg.reversed));
        let out = orient(run.1, seg.reversed);
        (
            Seq::new(
                cs.len(),
                |j: int|
                    if base <= j < base + seg.length {
                        out[j - base]
                    } else {
                        cs[j]
                    },
            ),
            run.0,
        )
    }
}

/// Fold one instance over the first `k` of its resolved segments, in order.
pub open spec fn run_segments(
    cs: Seq<Rgba>,
    cfg: GlobalConfigV,
    inst: EffectInstance,
    sids: Seq<SegmentId>,
    k: int,
) -> (Seq<Rgba>, EffectInstance)
    decreases k,
{
    if k <= 0 {
        (cs, inst)
    } else {
        let prev = run_segments(cs, cfg, inst, sids, k - 1);
        run_segment(prev.0, cfg, prev.1, sids[k - 1])
    }
}

/// One tick over the first `k` table entries, in table order: each entry's
/// instance runs over its resolved segments and is stored back with its
/// advanced private state.
pub open spec fn run_entries(
    cs: Seq<Rgba>,
    cfg: GlobalConfigV,
    t: Seq<(TargetV, RunningV)>,
    k: int,
) -> (Seq<Rgba>, Seq<(TargetV, RunningV)>)
    decreases k,
{
    if k <= 0 {
        (cs, t)
    } else {
        let prev = run_entries(cs, cfg, t, k - 1);
        let e = t[k - 1];
        let sids = resolve_target(cfg, e.0);
        let run = run_segments(prev.0, cfg, e.1.instance, sids, sids.len() as int);
        (
            run.0,
            prev.1.update(k - 1, (e.0, RunningV { effect_id: e.1.effect_id, instance: run.1 })),
        )
    }
}

/// Running never changes an instance's kind.
pub proof fn lemma_run_segments_frame(
    cs: Seq<Rgba>,
    cfg: GlobalConfigV,
    inst: EffectInstance,
    sids: Seq<SegmentId>,
    k: int,
)
    ensures
        run_segments(cs, cfg, inst, sids, k).0.len() == cs.len(),
        instance_kind(run_segments(cs, cfg, inst, sids, k).1) == instance_kind(inst),
    decreases k,
{
    if k > 0 {
        lemma_run_segments_frame(cs, cfg, inst, sids, k - 1);
    }
}

/// A tick changes neither keys nor kinds nor order, nor entries not yet
/// processed.  In particular, repeated ticks fold the same targets in the
/// same order over the surface, so where targets overlap, the same entry
/// wins tick after tick.
pub proof fn lemma_run_entries_frame(
    cs: Seq<Rgba>,
    cfg: GlobalConfigV,
    t: Seq<(TargetV, RunningV)>,
    k: int,
)
    requires
        0 <= k <= t.len(),
    ensures
        run_entries(cs, cfg, t, k).0.len() == cs.len(),
        run_entries(cs, cfg, t, k).1.len() == t.len(),
        forall|j: int| k <= j < t.len() ==> run_entries(cs, cfg, t, k).1[j] == t[j],
        forall|j: int|
            0 <= j < k ==> (#[trigger] run_entries(cs, cfg, t, k).1[j]).0 == t[j].0 && run_entries(
                cs,
                cfg,
                t,
                k,
            ).1[j].1.effect_id == t[j].1.effect_id && instance_kind(
                run_entries(cs, cfg, t, k).1[j].1.instance,
            ) == instance_kind(t[j].1.instance),
    decreases k,
{
    if k > 0 {
        lemma_run_entries_frame(cs, cfg, t, k - 1);
        let prev = run_entries(cs, cfg, t, k - 1);
        let sids = resolve_target(cfg, t[k - 1].0);
        lemma_run_segments_frame(prev.0, cfg, t[k - 1].1.instance, sids, sids.len() as int);
    }
}

/// The predicate a segment reference must meet to stay: it resolves.
pub open spec fn seg_ok(cfg: GlobalConfigV) -> spec_fn(SegmentId) -> bool {
    |s: SegmentId| seg_exists(cfg, s)
}

/// The predicate a group reference must meet to stay: the group exists.
pub open spec fn group_ok(cfg: GlobalConfigV) -> spec_fn(Seq<char>) -> bool {
    |g: Seq<char>| exists|k: int| 0 <= k < cfg.groups.len() && cfg.groups[k].id == g
}

/// What the table holds for a key.
pub open spec fn table_lookup(t: Seq<(TargetV, RunningV)>, key: TargetV) -> Option<RunningV> {
    let j = table_index(t, key);
    if j == -1 {
        None
    } else {
        Some(t[j].1)
    }
}

/// What one reconciliation step leaves under a key: a missing or
/// differently-kinded entry becomes a fresh build, an entry of the same kind
/// keeps its instance and takes the new configuration.
pub open spec fn reconciled_running(
    prev: Option<RunningV>,
    id: Seq<char>,
    cfg: EffectConfig,
) -> RunningV {
    match prev {
        Some(r) => if r.effect_id == id {
            RunningV { effect_id: id, instance: with_config_spec(r.instance, cfg) }
        } else {
            RunningV { effect_id: id, instance: build_spec(cfg) }
        },
        None => RunningV { effect_id: id, instance: build_spec(cfg) },
    }
}

proof fn lemma_table_index_update(
    t: Seq<(TargetV, RunningV)>,
    j: int,
    v: (TargetV, RunningV),
    key: TargetV,
)
    requires
        0 <= j < t.len(),
        v.0 == t[j].0,
    ensures
        table_index(t.update(j, v), key) == table_index(t, key),
    decreases t.len(),
{
    let t2 = t.update(j, v);
    if j == 0 {
        assert(t2[0].0 == t[0].0);
        if t[0].0 != key {
            assert(t2.drop_first() =~= t.drop_first());
        }
    } else {
        assert(t2[0] == t[0]);
        if t[0].0 != key {
            assert(t2.drop_first() =~= t.drop_first().update(j - 1, v));
            assert(t.drop_first()[j - 1] == t[j]);
            lemma_table_index_update(t.drop_first(), j - 1, v, key);
        }
    }
}

proof fn lemma_table_index_push(t: Seq<(TargetV, RunningV)>, v: (TargetV, RunningV), key: TargetV)
    ensures
        table_index(t, key) != -1 ==> table_index(t.push(v), key) == table_index(t, key),
        table_index(t, key) == -1 && v.0 == key ==> table_index(t.push(v), key) == t.len(),
        table_index(t, key) == -1 && v.0 != key ==> table_index(t.push(v), key) == -1,
{
    let t2 = t.push(v);
    lemma_table_index(t, key);
    lemma_table_index(t2, key);
    let i0 = table_index(t, key);
    let i2 = table_index(t2, key);
    assert(forall|j: int| 0 <= j < t.len() ==> t2[j] == #[trigger] t[j]);
    assert(t2[t.len() as int] == v);
    if i0 != -1 {
        assert(t2[i0].0 == key);
        assert(0 <= i2 < t2.len());
        if i2 < i0 {
            assert(t[i2].0 != key);
        }
        if i0 < i2 {
            assert(t2[i0].0 != key);
        }
    } else if v.0 == key {
        assert(0 <= i2 < t2.len());
        if i2 < t.len() {
            assert(t2[i2] == t[i2]);
            assert(t[i2].0 != key);
        }
    } else {
        if 0 <= i2 {
            assert(t2[i2].0 == key);
            if i2 < t.len() {
                assert(t[i2].0 != key);
            }
        }
    }
}

/// An upsert leaves under its own key exactly the reconciled entry.
proof fn lemma_upsert_same(t: Seq<(TargetV, RunningV)>, key: TargetV, id: Seq<char>, cfg: EffectConfig)
    ensures
        table_lookup(upsert(t, key, id, cfg), key) == Some(
            reconciled_running(table_lookup(t, key), id, cfg),
        ),
{
    lemma_table_index(t, key);
    let j = table_index(t, key);
    if j == -1 {
        let v = (key, RunningV { effect_id: id, instance: build_spec(cfg) });
        lemma_table_index_push(t, v, key);
    } else {
        if t[j].1.effect_id == id {
            let v = (
                t[j].0,
                RunningV { effect_id: id, instance: with_config_spec(t[j].1.instance, cfg) },
            );
            lemma_table_index_update(t, j, v, key);
        } else {
            let v = (t[j].0, RunningV { effect_id: id, instance: build_spec(cfg) });
            lemma_table_index_update(t, j, v, key);
        }
    }
}

/// An upsert leaves every other key's entry alone.
proof fn lemma_upsert_other(
    t: Seq<(TargetV, RunningV)>,
    key2: TargetV,
    id: Seq<char>,
    cfg: EffectConfig,
    key: TargetV,
)
    requires
        key != key2,
    ensures
        table_lookup(upsert(t, key2, id, cfg), key) == table_lookup(t, key),
{
    lemma_table_index(t, key);
    lemma_table_index(t, key2);
    let j = table_index(t, key2);
    let ti = table_index(t, key);
    if j == -1 {
        let v = (key2, RunningV { effect_id: id, instance: build_spec(cfg) });
        lemma_table_index_push(t, v, key);
    } else {
        let v1 = (t[j].0, RunningV { effect_id: id, instance: with_config_spec(t[j].1.instance, cfg) });
        let v2 = (t[j].0, RunningV { effect_id: id, instance: build_spec(cfg) });
        lemma_table_index_update(t, j, v1, key);
        lemma_table_index_update(t, j, v2, key);
        if ti != -1 {
            assert(ti != j);
        }
    }
}

/// Targets that do not address `key` leave its entry alone.
proof fn lemma_apply_targets_other(
    t: Seq<(TargetV, RunningV)>,
    ts: Seq<TargetV>,
    id: Seq<char>,
    cfg: EffectConfig,
    key: TargetV,
)
    requires
        !ts.contains(key),
    ensures
        table_lookup(apply_targets(t, ts, id, cfg), key) == table_lookup(t, key),
    decreases ts.len(),
{
    if ts.len() > 0 {
        assert(ts[0] != key);
        lemma_upsert_other(t, ts[0], id, cfg, key);
        assert(!ts.drop_first().contains(key)) by {
            if ts.drop_first().contains(key) {
                let w = choose|w: int|
                    0 <= w < ts.drop_first().len() && ts.drop_first()[w] == key;
                assert(ts[w + 1] == key);
            }
        }
        lemma_apply_targets_other(upsert(t, ts[0], id, cfg), ts.drop_first(), id, cfg, key);
    }
}

/// Re-reconciling an already reconciled entry with the same row changes
/// nothing: the step is idempotent.
proof fn lemma_reconcile_idempotent(r: RunningV, id: Seq<char>, cfg: EffectConfig)
    requires
        r == reconciled_running(Some(r), id, cfg) || r == (RunningV {
            effect_id: id,
            instance: build_spec(cfg),
        }) || (r.effect_id == id && r.instance == with_config_spec(r.instance, cfg)),
    ensures
        reconciled_running(Some(reconciled_running(Some(r), id, cfg)), id, cfg)
            == reconciled_running(Some(r), id, cfg),
{
    let once = reconciled_running(Some(r), id, cfg);
    assert(once.effect_id == id);
    assert(with_config_spec(once.instance, cfg) == once.instance);
}

/// Once a row has reconciled `key`, its remaining targets keep the entry.
proof fn lemma_apply_targets_stable(
    t: Seq<(TargetV, RunningV)>,
    ts: Seq<TargetV>,
    id: Seq<char>,
    cfg: EffectConfig,
    key: TargetV,
)
    requires
        table_lookup(t, key) is Some,
        table_lookup(t, key)->Some_0.effect_id == id,
        with_config_spec(table_lookup(t, key)->Some_0.instance, cfg) == table_lookup(
            t,
            key,
        )->Some_0.instance,
    ensures
        table_lookup(apply_targets(t, ts, id, cfg), key) == table_lookup(t, key),
    decreases ts.len(),
{
    if ts.len() > 0 {
        if ts[0] == key {
            lemma_upsert_same(t, key, id, cfg);
        } else {
            lemma_upsert_other(t, ts[0], id, cfg, key);
        }
        lemma_apply_targets_stable(upsert(t, ts[0], id, cfg), ts.drop_first(), id, cfg, key);
    }
}

/// A row that targets `key` leaves under it exactly the reconciled entry.
proof fn lemma_apply_targets_hit(
    t: Seq<(TargetV, RunningV)>,
    ts: Seq<TargetV>,
    id: Seq<char>,
    cfg: EffectConfig,
    key: TargetV,
)
    requires
        ts.contains(key),
    ensures
        table_lookup(apply_targets(t, ts, id, cfg), key) == Some(
            reconciled_running(table_lookup(t, key), id, cfg),
        ),
    decreases ts.len(),
{
    if ts[0] == key {
        lemma_upsert_same(t, key, id, cfg);
        let once = reconciled_running(table_lookup(t, key), id, cfg);
        assert(once.effect_id == id);
        assert(with_config_spec(once.instance, cfg) == once.instance);
        lemma_apply_targets_stable(upsert(t, key, id, cfg), ts.drop_first(), id, cfg, key);
    } else {
        lemma_upsert_other(t, ts[0], id, cfg, key);
        assert(ts.drop_first().contains(key)) by {
            let w = choose|w: int| 0 <= w < ts.len() && ts[w] == key;
            assert(ts.drop_first()[w - 1] == key);
        }
        lemma_apply_targets_hit(upsert(t, ts[0], id, cfg), ts.drop_first(), id, cfg, key);
    }
}

/// A run of rows that all reconcile `key` toward the same kind and
/// configuration — or do not address it at all — leaves a matching entry
/// exactly as it is.
proof fn lemma_apply_rows_stable(
    t: Seq<(TargetV, RunningV)>,
    rows: Seq<RowV>,
    key: TargetV,
    id: Seq<char>,
    cfg: EffectConfig,
)
    requires
        table_lookup(t, key) is Some,
        table_lookup(t, key)->Some_0.effect_id == id,
        with_config_spec(table_lookup(t, key)->Some_0.instance, cfg) == table_lookup(
            t,
            key,
        )->Some_0.instance,
        forall|x: int|
            0 <= x < rows.len() && row_targets(#[trigger] rows[x]).contains(key) ==> rows[
                x
            ].effect_id == id && rows[x].config == cfg,
    ensures
        table_lookup(apply_rows(t, rows), key) == table_lookup(t, key),
    decreases rows.len(),
{
    if rows.len() > 0 {
        if row_targets(rows[0]).contains(key) {
            lemma_apply_targets_stable(t, row_targets(rows[0]), id, cfg, key);
        } else {
            lemma_apply_targets_other(
                t,
                row_targets(rows[0]),
                rows[0].effect_id,
                rows[0].config,
                key,
            );
        }
        assert(forall|x: int|
            0 <= x < rows.drop_first().len() ==> rows.drop_first()[x] == #[trigger] rows[x + 1]);
        lemma_apply_rows_stable(
            apply_targets(t, row_targets(rows[0]), rows[0].effect_id, rows[0].config),
            rows.drop_first(),
            key,
            id,
            cfg,
        );
    }
}

/// Continuity of running instances across one reconciliation.
///
/// For a target all of whose assigning rows agree on the effect and its
/// configuration (in particular when exactly one row addresses it): if the
/// table already ran that target on the same effect kind, the entry keeps
/// its instance — and with it the private animation state — and only takes
/// the row's configuration; if the target is new to the table or its kind
/// changed, the entry is a freshly built instance whose private state starts
/// over at zero.
pub proof fn lemma_effect_continuity(
    t: Seq<(TargetV, RunningV)>,
    rows: Seq<RowV>,
    key: TargetV,
    w: int,
)
    requires
        0 <= w < rows.len(),
        row_targets(rows[w]).contains(key),
        forall|x: int|
            0 <= x < rows.len() && row_targets(#[trigger] rows[x]).contains(key) ==> rows[
                x
            ].effect_id == rows[w].effect_id && rows[x].config == rows[w].config,
    ensures
        table_lookup(apply_rows(t, rows), key) == Some(
            reconciled_running(table_lookup(t, key), rows[w].effect_id, rows[w].config),
        ),
        table_lookup(apply_rows(t, rows), key)->Some_0.effect_id == rows[w].effect_id,
        table_lookup(t, key) is Some && table_lookup(t, key)->Some_0.effect_id
            == rows[w].effect_id ==> instance_state(
            table_lookup(apply_rows(t, rows), key)->Some_0.instance,
        ) == instance_state(table_lookup(t, key)->Some_0.instance),
        table_lookup(t, key) is None || table_lookup(t, key)->Some_0.effect_id
            != rows[w].effect_id ==> table_lookup(apply_rows(t, rows), key)->Some_0.instance
            == build_spec(rows[w].config) && instance_state(
            table_lookup(apply_rows(t, rows), key)->Some_0.instance,
        ) == 0,
    decreases rows.len(),
{
    let id = rows[w].effect_id;
    let cfg = rows[w].config;
    let t1 = apply_targets(t, row_targets(rows[0]), rows[0].effect_id, rows[0].config);
    assert(forall|x: int|
        0 <= x < rows.drop_first().len() ==> rows.drop_first()[x] == #[trigger] rows[x + 1]);
    if row_targets(rows[0]).contains(key) {
        // The first assigning row already reconciles the entry to its final
        // value; every later row either agrees or does not address the key.
        assert(rows[0].effect_id == id && rows[0].config == cfg);
        lemma_apply_targets_hit(t, row_targets(rows[0]), id, cfg, key);
        let once = reconciled_running(table_lookup(t, key), id, cfg);
        assert(once.effect_id == id);
        assert(with_config_spec(once.instance, cfg) == once.instance);
        lemma_apply_rows_stable(t1, rows.drop_first(), key, id, cfg);
    } else {
        lemma_apply_targets_other(t, row_targets(rows[0]), rows[0].effect_id, rows[0].config, key);
        lemma_effect_continuity(t1, rows.drop_first(), key, w - 1);
    }
}

/// Repair one row against the registry and topology: an unknown effect
/// identifier is replaced (together with its configuration) by the default
/// kind's, dangling segment or group references are dropped, and repeated
/// references collapse to one (the lists stand for sets).  The row itself is
/// never deleted.
pub open spec fn repair_row(reg: EffectRegistry, cfg: GlobalConfigV, r: RowV) -> RowV {
    RowV {
        effect_id: if reg.registered(r.effect_id) {
            r.effect_id
        } else {
            reg.spec_default_kind().spec_id()
        },
        config: if reg.registered(r.effect_id) {
            r.config
        } else {
            reg.spec_default_kind().spec_default_config()
        },
        segment_ids: dedup_first(r.segment_ids.filter(seg_ok(cfg))),
        group_ids: dedup_first(r.group_ids.filter(group_ok(cfg))),
    }
}

/// Every segment of the configured topology, strip by strip, in order.
pub open spec fn all_segids_upto(strips: Seq<StripV>, k: int) -> Seq<SegmentId>
    decreases k,
{
    if k <= 0 {
        Seq::empty()
    } else {
        all_segids_upto(strips, k - 1) + Seq::new(
            strips[k - 1].segments.len(),
            |j: int| SegmentId { strip_idx: (k - 1) as usize, segment_idx: j as usize },
        )
    }
}

pub open spec fn all_segids(strips: Seq<StripV>) -> Seq<SegmentId> {
    all_segids_upto(strips, strips.len() as int)
}

/// The row synthesized for an empty display state: the first registered
/// kind with its default configuration, targeting every configured segment.
pub open spec fn default_row(reg: EffectRegistry, cfg: GlobalConfigV) -> RowV {
    RowV {
        effect_id: reg.spec_default_kind().spec_id(),
        config: reg.spec_default_kind().spec_default_config(),
        segment_ids: all_segids(cfg.strips),
        group_ids: Seq::empty(),
    }
}

/// What the display state becomes under validation, before the instance
/// table is reconciled.
pub open spec fn repaired_rows(reg: EffectRegistry, cfg: GlobalConfigV, rows: Seq<RowV>) -> Seq<
    RowV,
> {
    if rows.len() == 0 {
        seq![default_row(reg, cfg)]
    } else {
        rows.map_values(|r: RowV| repair_row(reg, cfg, r))
    }
}

/// Every segment and group reference on every row resolves against the
/// topology.
pub open spec fn rows_refs_valid(cfg: GlobalConfigV, rows: Seq<RowV>) -> bool {
    &&& forall|i: int, j: int|
        0 <= i < rows.len() && 0 <= j < (#[trigger] rows[i]).segment_ids.len() ==> seg_exists(
            cfg,
            #[trigger] rows[i].segment_ids[j],
        )
    &&& forall|i: int, j: int|
        0 <= i < rows.len() && 0 <= j < (#[trigger] rows[i]).group_ids.len() ==> group_exists(
            cfg,
            #[trigger] rows[i].group_ids[j],
        )
}

/// The row's configuration fits the registered kind it names.
pub open spec fn row_config_ok(reg: EffectRegistry, r: RowV) -> bool {
    exists|k: int|
        0 <= k < reg.kinds@.len() && (#[trigger] reg.kinds@[k]).spec_id() == r.effect_id
            && config_matches(reg.kinds@[k], r.config)
}

pub open spec fn rows_ok(reg: EffectRegistry, rows: Seq<RowV>) -> bool {
    forall|i: int| 0 <= i < rows.len() ==> row_config_ok(reg, #[trigger] rows[i])
}

/// How many leading segments of a strip fit the per-strip capacity, with
/// `used` pixels already taken by the offset and earlier segments.
pub open spec fn keep_prefix(segs: Seq<SegmentV>, used: int) -> int
    decreases segs.len(),
{
    if segs.len() == 0 {
        0
    } else if used + segs[0].length <= LEDS_PER_STRIP {
        1 + keep_prefix(segs.drop_first(), used + segs[0].length)
    } else {
        0
    }
}

/// A strip cut down to the segments that fit the surface.
pub open spec fn truncate_strip(s: StripV) -> StripV {
    StripV { offset: s.offset, segments: s.segments.take(keep_prefix(s.segments, s.offset as int)) }
}

/// What the topology becomes under validation: at most `STRIPS` strips,
/// each truncated to capacity, and groups cleared of dangling references.
pub open spec fn validated_strips(strips: Seq<StripV>) -> Seq<StripV> {
    let n = if strips.len() <= STRIPS {
        strips.len() as int
    } else {
        STRIPS as int
    };
    strips.take(n).map_values(|s: StripV| truncate_strip(s))
}

pub open spec fn validated_config(cfg: GlobalConfigV) -> GlobalConfigV {
    let strips = validated_strips(cfg.strips);
    let fixed = GlobalConfigV {
        brightness: cfg.brightness,
        as_srgb: cfg.as_srgb,
        strips,
        groups: cfg.groups,
    };
    GlobalConfigV {
        brightness: cfg.brightness,
        as_srgb: cfg.as_srgb,
        strips,
        groups: cfg.groups.map_values(
            |g: GroupV| GroupV {
                id: g.id,
                name: g.name,
                segment_ids: dedup_first(g.segment_ids.filter(seg_ok(fixed))),
            },
        ),
    }
}

/// The topology respects the surface: no more strips than exist, and every
/// non-empty strip's full extent fits on its strip.
pub open spec fn config_fits(cfg: GlobalConfigV) -> bool {
    &&& cfg.strips.len() <= STRIPS
    &&& forall|i: int|
        0 <= i < cfg.strips.len() && (#[trigger] cfg.strips[i]).segments.len() > 0 ==> strip_extent(
            cfg.strips[i],
            cfg.strips[i].segments.len() as int,
        ) <= LEDS_PER_STRIP
}

/// Truncation keeps extents: counting `k <= m` segments of a strip cut to
/// `m` segments measures the same extent as on the full strip.
pub proof fn lemma_extent_take(sv: StripV, m: int, k: int)
    requires
        0 <= k <= m <= sv.segments.len(),
    ensures
        strip_extent(StripV { offset: sv.offset, segments: sv.segments.take(m) }, k)
            == strip_extent(sv, k),
    decreases k,
{
    if k > 0 {
        lemma_extent_take(sv, m, k - 1);
    }
}

impl EffectRunner {
    /// Everything the runner needs of its parts except a fitting topology;
    /// what config validation itself requires.
    pub open spec fn wf_base(self) -> bool {
        &&& self.controller.wf()
        &&& self.registry.wf()
        &&& keys_distinct(table_view(self.effects_state@))
        &&& table_kinds_ok(table_view(self.effects_state@))
        &&& presets_wf(self.presets.inner@)
    }
}

/// Cut one strip down to the segments that fit the per-strip capacity.
fn truncate_strip_exec(strip: &Strip) -> (r: Strip)
    ensures
        r@ == truncate_strip(strip@),
        strip_extent(r@, r@.segments.len() as int) <= LEDS_PER_STRIP || r@.segments.len() == 0,
{
    let ghost sv = strip@;
    let n = strip.segments.len();
    let mut used: usize = strip.offset;
    let mut k: usize = 0;
    proof {
        assert(sv.segments.skip(0) =~= sv.segments);
    }
    while k < n && used <= LEDS_PER_STRIP && strip.segments[k].length <= LEDS_PER_STRIP - used
        invariant
            k <= n,
            n == sv.segments.len(),
            sv == strip@,
            used == strip_extent(sv, k as int),
            k > 0 ==> used <= LEDS_PER_STRIP,
            keep_prefix(sv.segments, sv.offset as int) == k + keep_prefix(
                sv.segments.skip(k as int),
                used as int,
            ),
        decreases n - k,
    {
        proof {
            assert(sv.segments.skip(k as int)[0] == sv.segments[k as int]);
            assert(sv.segments.skip(k as int).drop_first() =~= sv.segments.skip(k as int + 1));
        }
        used = used + strip.segments[k].length;
        k = k + 1;
    }
    proof {
        if k == n {
            assert(sv.segments.skip(n as int) =~= Seq::<SegmentV>::empty());
            assert(keep_prefix(sv.segments.skip(k as int), used as int) == 0);
        } else {
            assert(sv.segments.skip(k as int)[0] == sv.segments[k as int]);
            assert(used + sv.segments[k as int].length > LEDS_PER_STRIP);
            assert(keep_prefix(sv.segments.skip(k as int), used as int) == 0);
        }
        assert(keep_prefix(sv.segments, sv.offset as int) == k);
    }
    let mut segments: Vec<Segment> = Vec::new();
    let mut j: usize = 0;
    while j < k
        invariant
            j <= k <= n,
            n == strip.segments@.len(),
            segments@.len() == j,
            forall|i: int| 0 <= i < j ==> #[trigger] segments@[i]@ == strip.segments@[i]@,
        decreases k - j,
    {
        let s = &strip.segments[j];
        segments.push(Segment { name: s.name.clone(), length: s.length, reversed: s.reversed });
        j = j + 1;
    }
    let r = Strip { offset: strip.offset, segments };
    proof {
        assert(r@.segments =~= truncate_strip(strip@).segments);
        if r@.segments.len() > 0 {
            lemma_extent_take(sv, k as int, k as int);
        }
    }
    r
}

/// Whether the list already holds this segment reference.
fn contains_sid(v: &Vec<SegmentId>, x: SegmentId) -> (r: bool)
    ensures
        r == v@.contains(x),
{
    let n = v.len();
    let mut i: usize = 0;
    while i < n
        invariant
            i <= n,
            n == v@.len(),
            forall|j: int| 0 <= j < i ==> v@[j] != x,
        decreases n - i,
    {
        if v[i] == x {
            proof {
                assert(v@[i as int] == x);
            }
            return true;
        }
        i = i + 1;
    }
    proof {
        if v@.contains(x) {
            let w = choose|j: int| 0 <= j < v@.len() && v@[j] == x;
            assert(v@[w] != x);
        }
    }
    false
}

/// Whether the list already holds a name with this spelling.
fn contains_name(v: &Vec<String>, x: &String) -> (r: bool)
    ensures
        r == v@.map_values(|g: String| g@).contains(x@),
{
    let ghost names = v@.map_values(|g: String| g@);
    let n = v.len();
    let mut i: usize = 0;
    while i < n
        invariant
            i <= n,
            n == v@.len(),
            names == v@.map_values(|g: String| g@),
            forall|j: int| 0 <= j < i ==> names[j] != x@,
        decreases n - i,
    {
        if v[i] == *x {
            proof {
                assert(names[i as int] == x@);
            }
            return true;
        }
        i = i + 1;
    }
    proof {
        if names.contains(x@) {
            let w = choose|j: int| 0 <= j < names.len() && names[j] == x@;
            assert(names[w] != x@);
        }
    }
    false
}

/// Find the first table entry addressing `target`.
fn table_find(table: &Vec<(EffectTarget, RunningEffect)>, target: &EffectTarget) -> (r: Option<
    usize,
>)
    ensures
        match r {
            Some(j) => j == table_index(table_view(table@), target@) && j < table@.len()
                && table@[j as int].0@ == target@,
            None => table_index(table_view(table@), target@) == -1,
        },
{
    proof {
        lemma_table_index(table_view(table@), target@);
    }
    let n = table.len();
    let mut j: usize = 0;
    while j < n
        invariant
            j <= n,
            n == table@.len(),
            forall|i: int| 0 <= i < j ==> table_view(table@)[i].0 != target@,
        decreases n - j,
    {
        if table[j].0.matches(target) {
            proof {
                let tv = table_view(table@);
                assert(tv[j as int].0 == target@);
                lemma_table_index(tv, target@);
                let ti = table_index(tv, target@);
                if ti < j {
                    assert(tv[ti].0 != target@);
                }
            }
            return Some(j);
        }
        j = j + 1;
    }
    proof {
        let tv = table_view(table@);
        lemma_table_index(tv, target@);
        if 0 <= table_index(tv, target@) {
            assert(tv[table_index(tv, target@)].0 != target@);
        }
    }
    None
}

/// Reconcile one target in the live table, as `upsert` describes.
fn upsert_exec(
    table: &mut Vec<(EffectTarget, RunningEffect)>,
    target: &EffectTarget,
    id: &String,
    cfg: &EffectConfig,
    kind: EffectKind,
)
    requires
        kind.spec_id() == id@,
        config_matches(kind, *cfg),
        keys_distinct(table_view(old(table)@)),
        table_kinds_ok(table_view(old(table)@)),
    ensures
        table_view(final(table)@) =~= upsert(table_view(old(table)@), target@, id@, *cfg),
        keys_distinct(table_view(final(table)@)),
        table_kinds_ok(table_view(final(table)@)),
{
    let ghost t0 = table_view(table@);
    proof {
        lemma_table_index(t0, target@);
    }
    match table_find(table, target) {
        Some(j) => {
            let ghost ji = j as int;
            let tgt = table[j].0.duplicate();
            if table[j].1.effect_id == *id {
                let mut inst = table[j].1.instance;
                proof {
                    assert(instance_kind(inst).spec_id() == t0[ji].1.effect_id);
                    lemma_kind_id_injective(instance_kind(inst), kind);
                }
                let res = inst.set_config(cfg);
                match res {
                    Ok(()) => {},
                    Err(_) => {
                        proof {
                            assert(false);
                        }
                    },
                }
                let new_id = table[j].1.effect_id.clone();
                table.set(j, (tgt, RunningEffect { effect_id: new_id, instance: inst }));
            } else {
                let inst = kind.build_valid(cfg);
                table.set(j, (tgt, RunningEffect { effect_id: id.clone(), instance: inst }));
            }
            proof {
                assert(table_view(table@) =~= upsert(t0, target@, id@, *cfg));
            }
        },
        None => {
            let inst = kind.build_valid(cfg);
            table.push((target.duplicate(), RunningEffect { effect_id: id.clone(), instance: inst }));
            proof {
                assert(table_view(table@) =~= upsert(t0, target@, id@, *cfg));
                assert forall|i: int, l: int|
                    0 <= i < l < table_view(table@).len() implies table_view(table@)[i].0
                    != table_view(table@)[l].0 by {
                    if l == table_view(table@).len() - 1 {
                        assert(t0[i].0 != target@);
                    }
                }
            }
        },
    }
}

/// Find the entry stored under `name`.
fn preset_position(presets: &Presets, name: &String) -> (r: Option<usize>)
    ensures
        match r {
            Some(j) => j == preset_index(presets@, name@) && j < presets@.len()
                && presets@[j as int].0 == name@,
            None => preset_index(presets@, name@) == -1 && preset_find(presets@, name@) is None,
        },
{
    proof {
        lemma_preset_index(presets@, name@);
    }
    let n = presets.0.len();
    let mut j: usize = 0;
    while j < n
        invariant
            j <= n,
            n == presets@.len(),
            forall|i: int| 0 <= i < j ==> presets@[i].0 != name@,
        decreases n - j,
    {
        if presets.0[j].0 == *name {
            proof {
                lemma_preset_index(presets@, name@);
                let pi = preset_index(presets@, name@);
                if pi == -1 || pi > j {
                    assert(presets@[j as int].0 != name@);
                } else if pi < j {
                    assert(presets@[pi].0 != name@);
                }
            }
            return Some(j);
        }
        j = j + 1;
    }
    proof {
        lemma_preset_index(presets@, name@);
        if 0 <= preset_index(presets@, name@) {
            assert(presets@[preset_index(presets@, name@)].0 != name@);
        }
    }
    None
}

/// The errors the runner's API surfaces.
#[derive(Clone, Copy, Debug, PartialEq, Eq, Structural)]
pub enum RunnerError {
    /// A preset name that is not stored.
    UnknownPreset,
    /// A display-state row index out of range.
    RowIndexOutOfRange,
    /// A configuration value rejected by its effect kind.
    Config(ConfigError),
}

/// Global output settings as the API speaks of them.
#[derive(Clone, Copy, Debug, PartialEq, Eq, Structural)]
pub struct ApiConfig {
    pub brightness: u16,
    pub srgb: bool,
}

/// The scheduler: topology, display state, presets, the live instance
/// table, and the physical surface.
pub struct EffectRunner {
    pub registry: EffectRegistry,
    pub effects_state: Vec<(EffectTarget, RunningEffect)>,
    pub controller: Controller,
    pub config: Config<GlobalConfig>,
    pub state: Config<DisplayState>,
    pub presets: Config<Presets>,
    pub notifier: ChangeNotifier,
}

impl EffectRunner {
    pub open spec fn wf(self) -> bool {
        &&& self.wf_base()
        &&& config_fits(self.config.inner@)
    }

    /// Repair the topology: drop strips beyond the surface, truncate each
    /// strip's segments at the first one that overflows the per-strip
    /// capacity, and drop group references to segments that no longer
    /// exist.  The caller persists the configuration afterwards.
    pub fn validate_config(&mut self)
        requires
            old(self).wf_base(),
        ensures
            final(self).wf(),
            final(self).config.inner@ == validated_config(old(self).config.inner@),
            final(self).state == old(self).state,
            final(self).presets == old(self).presets,
            final(self).effects_state == old(self).effects_state,
            final(self).controller == old(self).controller,
            final(self).registry == old(self).registry,
            final(self).notifier == old(self).notifier,
    {
        let ghost cfg0 = old(self).config.inner@;

        // Keep at most as many strips as the surface has, each truncated.
        let n = if self.config.inner.strips.len() <= STRIPS {
            self.config.inner.strips.len()
        } else {
            STRIPS
        };
        let mut strips: Vec<Strip> = Vec::new();
        let mut i: usize = 0;
        while i < n
            invariant
                i <= n,
                n <= self.config.inner.strips@.len(),
                self == old(self),
                strips@.len() == i,
                forall|j: int|
                    0 <= j < i ==> #[trigger] strips@[j]@ == truncate_strip(
                        old(self).config.inner@.strips[j],
                    ) && (strips@[j]@.segments.len() == 0 || strip_extent(
                        strips@[j]@,
                        strips@[j]@.segments.len() as int,
                    ) <= LEDS_PER_STRIP),
            decreases n - i,
        {
            let t = truncate_strip_exec(&self.config.inner.strips[i]);
            strips.push(t);
            i = i + 1;
        }
        self.config.inner.strips = strips;
        proof {
            assert(self.config.inner@.strips =~= validated_strips(cfg0.strips));
        }
        let ghost mid = self.config.inner@;

        // Drop group references that no longer resolve.
        let gn = self.config.inner.groups.len();
        let mut groups: Vec<Group> = Vec::new();
        let mut gi: usize = 0;
        while gi < gn
            invariant
                gi <= gn,
                gn == self.config.inner.groups@.len(),
                self.config.inner@ == mid,
                groups@.len() == gi,
                forall|j: int|
                    0 <= j < gi ==> #[trigger] groups@[j]@ == (GroupV {
                        id: mid.groups[j].id,
                        name: mid.groups[j].name,
                        segment_ids: dedup_first(mid.groups[j].segment_ids.filter(seg_ok(mid))),
                    }),
            decreases gn - gi,
        {
            let g = &self.config.inner.groups[gi];
            let m = g.segment_ids.len();
            let mut kept: Vec<SegmentId> = Vec::new();
            let mut k: usize = 0;
            proof {
                reveal(Seq::<SegmentId>::filter);
                assert(g.segment_ids@.take(0).filter(seg_ok(mid)) =~= Seq::<SegmentId>::empty());
                assert(dedup_first(g.segment_ids@.take(0).filter(seg_ok(mid))) =~= Seq::<
                    SegmentId,
                >::empty());
            }
            while k < m
                invariant
                    k <= m,
                    m == g.segment_ids@.len(),
                    g == &self.config.inner.groups[gi as int],
                    gi < self.config.inner.groups@.len(),
                    self.config.inner@ == mid,
                    kept@ =~= dedup_first(g.segment_ids@.take(k as int).filter(seg_ok(mid))),
                decreases m - k,
            {
                let ghost pred = seg_ok(mid);
                proof {
                    reveal(Seq::<SegmentId>::filter);
                    let pre = g.segment_ids@.take(k as int);
                    let cur = g.segment_ids@.take(k as int + 1);
                    assert(cur.drop_last() =~= pre);
                    assert(cur.last() == g.segment_ids@[k as int]);
                    assert(cur.filter(pred) == if pred(cur.last()) {
                        pre.filter(pred).push(cur.last())
                    } else {
                        pre.filter(pred)
                    });
                    let pf = pre.filter(pred);
                    let x = g.segment_ids@[k as int];
                    if pred(x) {
                        assert(pf.push(x).drop_last() =~= pf);
                        assert(pf.push(x).last() == x);
                        assert(dedup_first(pf.push(x)) == if pf.contains(x) {
                            dedup_first(pf)
                        } else {
                            dedup_first(pf).push(x)
                        });
                        lemma_dedup_first_membership(pf, x);
                    }
                }
                let sid = g.segment_ids[k];
                if self.config.inner.check_segment(&sid) && !contains_sid(&kept, sid) {
                    kept.push(sid);
                }
                k = k + 1;
            }
            proof {
                assert(g.segment_ids@.take(m as int) =~= g.segment_ids@);
            }
            let new_group = Group {
                id: g.id.clone(),
                name: g.name.clone(),
                segment_ids: kept,
            };
            groups.push(new_group);
            gi = gi + 1;
        }
        self.config.inner.groups = groups;
        proof {
            assert(self.config.inner@.groups =~= validated_config(cfg0).groups);
            assert(self.config.inner@ == validated_config(cfg0));
            assert(config_fits(self.config.inner@));
        }
    }

    /// Reconcile the display state against the registry, the topology and
    /// the live instance table.
    ///
    /// An empty state gets one synthesized row (the first registered kind,
    /// default configuration, targeting every configured segment).  Rows
    /// naming an unknown effect fall back to the default kind; dangling
    /// segment and group references are dropped (rows are trimmed, never
    /// deleted).  Every valid target of every row is then reconciled into
    /// the table: a target kept on the same kind keeps its instance (and
    /// with it the private animation state) and only takes the row's
    /// configuration; a target whose kind changed is rebuilt from scratch;
    /// targets no longer referenced stay in the table untouched.  A row
    /// whose configuration does not fit its (registered) kind fails the
    /// call: the repaired rows are kept but the table is left unchanged.
    /// The caller persists the display state afterwards.
    #[verifier::loop_isolation(false)]
    #[verifier::rlimit(60)]
    pub fn validate_state(&mut self) -> (r: Result<(), RunnerError>)
        requires
            old(self).wf(),
        ensures
            final(self).wf(),
            final(self).config == old(self).config,
            final(self).presets == old(self).presets,
            final(self).controller == old(self).controller,
            final(self).registry == old(self).registry,
            final(self).notifier == old(self).notifier,
            final(self).state.inner@ =~= repaired_rows(
                old(self).registry,
                old(self).config.inner@,
                old(self).state.inner@,
            ),
            final(self).state.inner@.len() >= 1,
            rows_refs_valid(old(self).config.inner@, final(self).state.inner@),
            r is Ok <==> rows_ok(
                old(self).registry,
                repaired_rows(old(self).registry, old(self).config.inner@, old(self).state.inner@),
            ),
            r is Err ==> final(self).effects_state == old(self).effects_state && r->Err_0 is Config,
            r is Ok ==> table_view(final(self).effects_state@) =~= apply_rows(
                table_view(old(self).effects_state@),
                repaired_rows(old(self).registry, old(self).config.inner@, old(self).state.inner@),
            ),
    {
        let ghost reg0 = self.registry;
        let ghost cfg0 = self.config.inner@;
        let ghost rows0 = self.state.inner@;

        // Synthesize one default row for an empty state, or repair each row.
        if self.state.inner.effects.len() == 0 {
            let dk = self.registry.default_kind();
            let mut segment_ids: Vec<SegmentId> = Vec::new();
            let sn = self.config.inner.strips.len();
            let mut i: usize = 0;
            while i < sn
                invariant
                    i <= sn,
                    sn == cfg0.strips.len(),
                    self == old(self),
                    cfg0 == self.config.inner@,
                    segment_ids@ =~= all_segids_upto(cfg0.strips, i as int),
                    forall|x: int|
                        0 <= x < segment_ids@.len() ==> seg_exists(
                            cfg0,
                            #[trigger] segment_ids@[x],
                        ),
                decreases sn - i,
            {
                let m = self.config.inner.strips[i].segments.len();
                let mut j: usize = 0;
                while j < m
                    invariant
                        i < sn,
                        j <= m,
                        sn == cfg0.strips.len(),
                        self == old(self),
                        cfg0 == self.config.inner@,
                        m == cfg0.strips[i as int].segments.len(),
                        segment_ids@ =~= all_segids_upto(cfg0.strips, i as int) + Seq::new(
                            j as nat,
                            |x: int| SegmentId { strip_idx: i, segment_idx: x as usize },
                        ),
                        forall|x: int|
                            0 <= x < segment_ids@.len() ==> seg_exists(
                                cfg0,
                                #[trigger] segment_ids@[x],
                            ),
                    decreases m - j,
                {
                    segment_ids.push(SegmentId { strip_idx: i, segment_idx: j });
                    j = j + 1;
                }
                proof {
                    assert(segment_ids@ =~= all_segids_upto(cfg0.strips, i as int + 1));
                }
                i = i + 1;
            }
            let row = DisplayStateEffect {
                effect_id: dk.id(),
                config: dk.default_config(),
                segment_ids,
                group_ids: Vec::new(),
            };
            proof {
                assert(row@.group_ids =~= Seq::<Seq<char>>::empty());
                assert(row@ == default_row(reg0, cfg0));
            }
            let mut effects: Vec<DisplayStateEffect> = Vec::new();
            effects.push(row);
            self.state.inner.effects = effects;
            proof {
                assert(self.state.inner@ =~= repaired_rows(reg0, cfg0, rows0));
            }
        } else {
            let rn = self.state.inner.effects.len();
            let mut effects: Vec<DisplayStateEffect> = Vec::new();
            let mut ri: usize = 0;
            while ri < rn
                invariant
                    ri <= rn,
                    rn == rows0.len(),
                    self == old(self),
                    cfg0 == self.config.inner@,
                    rows0 == self.state.inner@,
                    reg0 == self.registry,
                    old(self).wf(),
                    effects@.len() == ri,
                    forall|x: int|
                        0 <= x < ri ==> #[trigger] effects@[x]@ == repair_row(
                            reg0,
                            cfg0,
                            rows0[x],
                        ),
                decreases rn - ri,
            {
                let row = &self.state.inner.effects[ri];
                let found = self.registry.find(&row.effect_id);
                let new_id: String;
                let new_cfg: EffectConfig;
                match found {
                    Some(_) => {
                        new_id = row.effect_id.clone();
                        new_cfg = row.config;
                    },
                    None => {
                        let dk = self.registry.default_kind();
                        new_id = dk.id();
                        new_cfg = dk.default_config();
                    },
                }

                let sm = row.segment_ids.len();
                let mut kept_segs: Vec<SegmentId> = Vec::new();
                let mut k: usize = 0;
                proof {
                    reveal(Seq::<SegmentId>::filter);
                    assert(row.segment_ids@.take(0).filter(seg_ok(cfg0)) =~= Seq::<
                        SegmentId,
                    >::empty());
                    assert(dedup_first(row.segment_ids@.take(0).filter(seg_ok(cfg0))) =~= Seq::<
                        SegmentId,
                    >::empty());
                }
                while k < sm
                    invariant
                        k <= sm,
                        ri < rn,
                        rn == self.state.inner.effects@.len(),
                        sm == row.segment_ids@.len(),
                        row == &self.state.inner.effects[ri as int],
                        cfg0 == self.config.inner@,
                        kept_segs@ =~= dedup_first(
                            row.segment_ids@.take(k as int).filter(seg_ok(cfg0)),
                        ),
                    decreases sm - k,
                {
                    proof {
                        reveal(Seq::<SegmentId>::filter);
                        let pre = row.segment_ids@.take(k as int);
                        let cur = row.segment_ids@.take(k as int + 1);
                        assert(cur.drop_last() =~= pre);
                        assert(cur.last() == row.segment_ids@[k as int]);
                        assert(cur.filter(seg_ok(cfg0)) == if seg_ok(cfg0)(cur.last()) {
                            pre.filter(seg_ok(cfg0)).push(cur.last())
                        } else {
                            pre.filter(seg_ok(cfg0))
                        });
                        let pf = pre.filter(seg_ok(cfg0));
                        let x = row.segment_ids@[k as int];
                        if seg_ok(cfg0)(x) {
                            assert(pf.push(x).drop_last() =~= pf);
                            assert(pf.push(x).last() == x);
                            assert(dedup_first(pf.push(x)) == if pf.contains(x) {
                                dedup_first(pf)
                            } else {
                                dedup_first(pf).push(x)
                            });
                            lemma_dedup_first_membership(pf, x);
                        }
                    }
                    let sid = row.segment_ids[k];
                    if self.config.inner.check_segment(&sid) && !contains_sid(&kept_segs, sid) {
                        kept_segs.push(sid);
                    }
                    k = k + 1;
                }
                proof {
                    assert(row.segment_ids@.take(sm as int) =~= row.segment_ids@);
                }

                let gm = row.group_ids.len();
                let mut kept_groups: Vec<String> = Vec::new();
                let ghost gseq = row@.group_ids;
                let mut k: usize = 0;
                proof {
                    reveal(Seq::<Seq<char>>::filter);
                    assert(gseq.take(0).filter(group_ok(cfg0)) =~= Seq::<Seq<char>>::empty());
                    assert(dedup_first(gseq.take(0).filter(group_ok(cfg0))) =~= Seq::<
                        Seq<char>,
                    >::empty());
                }
                while k < gm
                    invariant
                        k <= gm,
                        ri < rn,
                        rn == self.state.inner.effects@.len(),
                        gm == row.group_ids@.len(),
                        row == &self.state.inner.effects[ri as int],
                        cfg0 == self.config.inner@,
                        gseq == row@.group_ids,
                        kept_groups@.map_values(|g: String| g@) =~= dedup_first(
                            gseq.take(k as int).filter(group_ok(cfg0)),
                        ),
                    decreases gm - k,
                {
                    proof {
                        reveal(Seq::<Seq<char>>::filter);
                        let pre = gseq.take(k as int);
                        let cur = gseq.take(k as int + 1);
                        assert(cur.drop_last() =~= pre);
                        assert(gseq[k as int] == row.group_ids@[k as int]@);
                        assert(cur.last() == gseq[k as int]);
                        assert(cur.filter(group_ok(cfg0)) == if group_ok(cfg0)(cur.last()) {
                            pre.filter(group_ok(cfg0)).push(cur.last())
                        } else {
                            pre.filter(group_ok(cfg0))
                        });
                        let pf = pre.filter(group_ok(cfg0));
                        let x = gseq[k as int];
                        if group_ok(cfg0)(x) {
                            assert(pf.push(x).drop_last() =~= pf);
                            assert(pf.push(x).last() == x);
                            assert(dedup_first(pf.push(x)) == if pf.contains(x) {
                                dedup_first(pf)
                            } else {
                                dedup_first(pf).push(x)
                            });
                            lemma_dedup_first_membership(pf, x);
                        }
                    }
                    let gid = &row.group_ids[k];
                    let ghost pre_map = kept_groups@.map_values(|g: String| g@);
                    match self.config.inner.find_group(gid) {
                        Some(_) => {
                            proof {
                                assert(group_ok(cfg0)(gseq[k as int]));
                            }
                            if !contains_name(&kept_groups, gid) {
                                kept_groups.push(gid.clone());
                                proof {
                                    assert(kept_groups@.map_values(|g: String| g@)
                                        =~= pre_map.push(gseq[k as int]));
                                }
                            }
                        },
                        None => {
                            proof {
                                assert(!group_ok(cfg0)(gseq[k as int]));
                            }
                        },
                    }
                    k = k + 1;
                }
                proof {
                    assert(gseq.take(gm as int) =~= gseq);
                }

                let new_row = DisplayStateEffect {
                    effect_id: new_id,
                    config: new_cfg,
                    segment_ids: kept_segs,
                    group_ids: kept_groups,
                };
                proof {
                    assert(row@ == rows0[ri as int]);
                    assert(new_row@ == repair_row(reg0, cfg0, rows0[ri as int]));
                }
                effects.push(new_row);
                ri = ri + 1;
            }
            self.state.inner.effects = effects;
            proof {
                assert(self.state.inner@ =~= repaired_rows(reg0, cfg0, rows0));
            }
        }
        let ghost rows2 = self.state.inner@;

        // The repaired rows reference only things that resolve.
        proof {
            assert forall|i: int, j: int|
                0 <= i < rows2.len() && 0 <= j < (#[trigger] rows2[i]).segment_ids.len() implies
                seg_exists(cfg0, #[trigger] rows2[i].segment_ids[j]) by {
                if rows0.len() != 0 {
                    let filtered = rows0[i].segment_ids.filter(seg_ok(cfg0));
                    let e = rows2[i].segment_ids[j];
                    assert(dedup_first(filtered).contains(e));
                    lemma_dedup_first_membership(filtered, e);
                    let w = choose|w: int| 0 <= w < filtered.len() && filtered[w] == e;
                    rows0[i].segment_ids.lemma_filter_pred(seg_ok(cfg0), w);
                }
            }
            assert forall|i: int, j: int|
                0 <= i < rows2.len() && 0 <= j < (#[trigger] rows2[i]).group_ids.len() implies
                group_exists(cfg0, #[trigger] rows2[i].group_ids[j]) by {
                if rows0.len() != 0 {
                    let filtered = rows0[i].group_ids.filter(group_ok(cfg0));
                    let e = rows2[i].group_ids[j];
                    assert(dedup_first(filtered).contains(e));
                    lemma_dedup_first_membership(filtered, e);
                    let w = choose|w: int| 0 <= w < filtered.len() && filtered[w] == e;
                    rows0[i].group_ids.lemma_filter_pred(group_ok(cfg0), w);
                }
            }
        }

        // Every row's configuration must fit the kind it names; otherwise
        // nothing is reconciled.
        let rn = self.state.inner.effects.len();
        let mut ri: usize = 0;
        while ri < rn
            invariant
                ri <= rn,
                rn == rows2.len(),
                rows2 == self.state.inner@,
                reg0 == self.registry,
                reg0.wf(),
                forall|x: int| 0 <= x < ri ==> row_config_ok(reg0, #[trigger] rows2[x]),
                forall|x: int| 0 <= x < rows2.len() ==> reg0.registered((#[trigger] rows2[x]).effect_id),
            decreases rn - ri,
        {
            let row = &self.state.inner.effects[ri];
            match self.registry.find(&row.effect_id) {
                Some(kind) => {
                    if !kind.matches_config(&row.config) {
                        proof {
                            assert(!row_config_ok(reg0, rows2[ri as int])) by {
                                if row_config_ok(reg0, rows2[ri as int]) {
                                    let k = choose|k: int|
                                        0 <= k < reg0.kinds@.len() && (
                                        #[trigger] reg0.kinds@[k]).spec_id()
                                            == rows2[ri as int].effect_id && config_matches(
                                            reg0.kinds@[k],
                                            rows2[ri as int].config,
                                        );
                                    lemma_kind_id_injective(reg0.kinds@[k], kind);
                                }
                            }
                        }
                        return Err(RunnerError::Config(ConfigError::KindMismatch));
                    }
                    proof {
                        let ghost ki = choose|k: int|
                            0 <= k < reg0.kinds@.len() && reg0.kinds@[k] == kind;
                        assert(reg0.kinds@.contains(kind));
                        assert(row_config_ok(reg0, rows2[ri as int]));
                    }
                },
                None => {
                    proof {
                        assert(reg0.registered(rows2[ri as int].effect_id));
                        assert(false);
                    }
                    return Err(RunnerError::Config(ConfigError::KindMismatch));
                },
            }
            ri = ri + 1;
        }
        proof {
            assert(rows_ok(reg0, rows2));
        }

        // Reconcile every valid target of every row into the table.
        let ghost t0 = table_view(self.effects_state@);
        let rn = self.state.inner.effects.len();
        let mut ri: usize = 0;
        while ri < rn
            invariant
                ri <= rn,
                rn == rows2.len(),
                rows2 == self.state.inner@,
                reg0 == self.registry,
                reg0.wf(),
                rows_ok(reg0, rows2),
                self.config == old(self).config,
                self.presets == old(self).presets,
                self.controller == old(self).controller,
                self.registry == old(self).registry,
                self.notifier == old(self).notifier,
                self.state.inner@ == rows2,
                keys_distinct(table_view(self.effects_state@)),
                table_kinds_ok(table_view(self.effects_state@)),
                table_view(self.effects_state@) =~= apply_rows(t0, rows2.take(ri as int)),
            decreases rn - ri,
        {
            let ghost tbase = apply_rows(t0, rows2.take(ri as int));
            let ghost rv = rows2[ri as int];
            let ghost ts = row_targets(rv);
            let row = &self.state.inner.effects[ri];
            let kind = match self.registry.find(&row.effect_id) {
                Some(k) => k,
                None => {
                    proof {
                        assert(false);
                    }
                    EffectKind::Solid
                },
            };
            proof {
                assert(config_matches(kind, rv.config)) by {
                    let k = choose|k: int|
                        0 <= k < reg0.kinds@.len() && (#[trigger] reg0.kinds@[k]).spec_id()
                            == rv.effect_id && config_matches(reg0.kinds@[k], rv.config);
                    lemma_kind_id_injective(reg0.kinds@[k], kind);
                }
                assert(ts.len() == rv.segment_ids.len() + rv.group_ids.len());
            }

            let sm = row.segment_ids.len();
            let mut k: usize = 0;
            proof {
                assert(ts.take(0) =~= Seq::<TargetV>::empty());
            }
            while k < sm
                invariant
                    k <= sm,
                    ri < rn,
                    rn == self.state.inner.effects@.len(),
                    sm == row.segment_ids@.len(),
                    row == &self.state.inner.effects[ri as int],
                    rows2 == self.state.inner@,
                    rv == rows2[ri as int],
                    ts == row_targets(rv),
                    sm == rv.segment_ids.len(),
                    kind.spec_id() == rv.effect_id,
                    config_matches(kind, rv.config),
                    keys_distinct(table_view(self.effects_state@)),
                    table_kinds_ok(table_view(self.effects_state@)),
                    table_view(self.effects_state@) =~= apply_targets(
                        tbase,
                        ts.take(k as int),
                        rv.effect_id,
                        rv.config,
                    ),
                    self.config == old(self).config,
                    self.presets == old(self).presets,
                    self.controller == old(self).controller,
                    self.registry == old(self).registry,
                    self.notifier == old(self).notifier,
                decreases sm - k,
            {
                let target = EffectTarget::Segment(row.segment_ids[k]);
                proof {
                    assert(ts[k as int] == TargetV::Segment(rv.segment_ids[k as int]));
                    assert(target@ == ts[k as int]);
                    assert(ts.take(k as int + 1) =~= ts.take(k as int).push(ts[k as int]));
                    lemma_apply_targets_snoc(
                        tbase,
                        ts.take(k as int),
                        ts[k as int],
                        rv.effect_id,
                        rv.config,
                    );
                }
                upsert_exec(&mut self.effects_state, &target, &row.effect_id, &row.config, kind);
                k = k + 1;
            }

            let gm = row.group_ids.len();
            let mut k: usize = 0;
            while k < gm
                invariant
                    k <= gm,
                    ri < rn,
                    rn == self.state.inner.effects@.len(),
                    gm == row.group_ids@.len(),
                    row == &self.state.inner.effects[ri as int],
                    rows2 == self.state.inner@,
                    rv == rows2[ri as int],
                    ts == row_targets(rv),
                    gm == rv.group_ids.len(),
                    kind.spec_id() == rv.effect_id,
                    config_matches(kind, rv.config),
                    keys_distinct(table_view(self.effects_state@)),
                    table_kinds_ok(table_view(self.effects_state@)),
                    table_view(self.effects_state@) =~= apply_targets(
                        tbase,
                        ts.take(rv.segment_ids.len() + k as int),
                        rv.effect_id,
                        rv.config,
                    ),
                    self.config == old(self).config,
                    self.presets == old(self).presets,
                    self.controller == old(self).controller,
                    self.registry == old(self).registry,
                    self.notifier == old(self).notifier,
                decreases gm - k,
            {
                let target = EffectTarget::Group(row.group_ids[k].clone());
                proof {
                    let pos = rv.segment_ids.len() + k as int;
                    assert(ts[pos] == TargetV::Group(rv.group_ids[k as int]));
                    assert(rv.group_ids[k as int] == row.group_ids@[k as int]@);
                    assert(target@ == ts[pos]);
                    assert(ts.take(pos + 1) =~= ts.take(pos).push(ts[pos]));
                    lemma_apply_targets_snoc(
                        tbase,
                        ts.take(pos),
                        ts[pos],
                        rv.effect_id,
                        rv.config,
                    );
                }
                upsert_exec(&mut self.effects_state, &target, &row.effect_id, &row.config, kind);
                k = k + 1;
            }

            proof {
                assert(ts.take(rv.segment_ids.len() + rv.group_ids.len() as int) =~= ts);
                assert(rows2.take(ri as int + 1) =~= rows2.take(ri as int).push(rv));
                lemma_apply_rows_snoc(t0, rows2.take(ri as int), rv);
            }
            ri = ri + 1;
        }
        proof {
            assert(rows2.take(rn as int) =~= rows2);
        }
        Ok(())
    }

    /// One scheduling tick: run every live instance over the sections its
    /// target resolves to (in table order, sequentially — overlapping
    /// targets are last-write-wins), then encode the composed frame for the
    /// transport.  Dangling targets are skipped for this tick only.  The
    /// caller sends the returned frame; a transport failure is the caller's
    /// to log and ignore.
    #[verifier::loop_isolation(false)]
    pub fn tick(&mut self) -> (frame: Vec<u8>)
        requires
            old(self).wf(),
        ensures
            final(self).wf(),
            final(self).config == old(self).config,
            final(self).state == old(self).state,
            final(self).presets == old(self).presets,
            final(self).registry == old(self).registry,
            final(self).notifier == old(self).notifier,
            final(self).controller.config == old(self).controller.config,
            final(self).controller.state@ =~= run_entries(
                old(self).controller.state@,
                old(self).config.inner@,
                table_view(old(self).effects_state@),
                old(self).effects_state@.len() as int,
            ).0,
            table_view(final(self).effects_state@) =~= run_entries(
                old(self).controller.state@,
                old(self).config.inner@,
                table_view(old(self).effects_state@),
                old(self).effects_state@.len() as int,
            ).1,
            frame@.len() == 3 * STRIPS * LEDS_PER_STRIP,
            forall|i: int|
                0 <= i < STRIPS * LEDS_PER_STRIP ==> #[trigger] pixel_encoded(
                    final(self).controller.state@,
                    frame@,
                    i,
                    old(self).config.inner@.brightness as int,
                    old(self).config.inner@.as_srgb,
                ),
    {
        let ghost cs0 = self.controller.state@;
        let ghost cfg0 = self.config.inner@;
        let ghost t0 = table_view(self.effects_state@);
        let n = self.effects_state.len();
        let mut e: usize = 0;
        while e < n
            invariant
                e <= n,
                self.config == old(self).config,
                self.state == old(self).state,
                self.presets == old(self).presets,
                self.registry == old(self).registry,
                self.notifier == old(self).notifier,
                self.controller.config == old(self).controller.config,
                self.controller.wf(),
                self.effects_state@.len() == n,
                self.controller.state@ =~= run_entries(cs0, cfg0, t0, e as int).0,
                table_view(self.effects_state@) =~= run_entries(cs0, cfg0, t0, e as int).1,
                keys_distinct(table_view(self.effects_state@)),
                table_kinds_ok(table_view(self.effects_state@)),
            decreases n - e,
        {
            let ghost prev = run_entries(cs0, cfg0, t0, e as int);
            let ghost entry_v = t0[e as int];
            proof {
                lemma_run_entries_frame(cs0, cfg0, t0, e as int);
                assert(table_view(self.effects_state@)[e as int] == t0[e as int]);
            }

            // Resolve the target to segments.
            let sids: Vec<SegmentId> = match &self.effects_state[e].0 {
                EffectTarget::Segment(sid) => {
                    let mut v: Vec<SegmentId> = Vec::new();
                    v.push(*sid);
                    proof {
                        assert(v@ =~= resolve_target(cfg0, entry_v.0));
                    }
                    v
                },
                EffectTarget::Group(gid) => {
                    match self.config.inner.find_group(gid) {
                        Some(gi) => {
                            let src = &self.config.inner.groups[gi].segment_ids;
                            let m = src.len();
                            let mut v: Vec<SegmentId> = Vec::new();
                            let mut q: usize = 0;
                            while q < m
                                invariant
                                    q <= m,
                                    m == src@.len(),
                                    v@ =~= src@.take(q as int),
                                decreases m - q,
                            {
                                v.push(src[q]);
                                q = q + 1;
                            }
                            proof {
                                assert(src@.take(m as int) =~= src@);
                                assert(v@ =~= resolve_target(cfg0, entry_v.0));
                            }
                            v
                        },
                        None => {
                            proof {
                                crate::config::lemma_group_index(cfg0.groups, gid@);
                                assert(Seq::<SegmentId>::empty() =~= resolve_target(
                                    cfg0,
                                    entry_v.0,
                                ));
                            }
                            Vec::new()
                        },
                    }
                },
            };

            // Run the instance over each resolved segment, in order.
            let mut inst = self.effects_state[e].1.instance;
            let ghost table_snap = self.effects_state@;
            let m = sids.len();
            let mut s: usize = 0;
            while s < m
                invariant
                    s <= m,
                    m == sids@.len(),
                    self.config == old(self).config,
                    self.state == old(self).state,
                    self.presets == old(self).presets,
                    self.registry == old(self).registry,
                    self.notifier == old(self).notifier,
                    self.effects_state@ == table_snap,
                    self.controller.config == old(self).controller.config,
                    self.controller.wf(),
                    self.controller.state@ =~= run_segments(
                        prev.0,
                        cfg0,
                        entry_v.1.instance,
                        sids@,
                        s as int,
                    ).0,
                    inst == run_segments(prev.0, cfg0, entry_v.1.instance, sids@, s as int).1,
                decreases m - s,
            {
                let ghost cs_before = self.controller.state@;
                let ghost inst_before = inst;
                let sid = sids[s];
                if self.config.inner.check_segment(&sid) {
                    let ghost stripv = cfg0.strips[sid.strip_idx as int];
                    let ghost segv = stripv.segments[sid.segment_idx as int];
                    let strip = &self.config.inner.strips[sid.strip_idx];
                    let seg_count = strip.segments.len();
                    proof {
                        assert(stripv.segments.len() == seg_count);
                        lemma_strip_extent_monotone(stripv, 0, sid.segment_idx as int);
                        lemma_strip_extent_monotone(
                            stripv,
                            sid.segment_idx as int + 1,
                            seg_count as int,
                        );
                    }
                    let mut start: usize = strip.offset;
                    let mut q: usize = 0;
                    while q < sid.segment_idx
                        invariant
                            q <= sid.segment_idx,
                            stripv == strip@,
                            sid.segment_idx < strip.segments@.len(),
                            start == strip_extent(stripv, q as int),
                        decreases sid.segment_idx - q,
                    {
                        proof {
                            lemma_strip_extent_monotone(stripv, q as int + 1, seg_count as int);
                        }
                        start = start + strip.segments[q].length;
                        q = q + 1;
                    }
                    let seg_len = strip.segments[sid.segment_idx].length;
                    let seg_rev = strip.segments[sid.segment_idx].reversed;
                    proof {
                        assert(start + seg_len == strip_extent(stripv, sid.segment_idx as int + 1));
                        assert(start + seg_len <= LEDS_PER_STRIP);
                    }
                    let mut section = self.controller.section(
                        sid.strip_idx,
                        start,
                        seg_len,
                        seg_rev,
                    );
                    let ghost base = sid.strip_idx * (LEDS_PER_STRIP as int) + start;
                    let ghost win = cs_before.subrange(base, base + seg_len);
                    proof {
                        assert forall|i: int| 0 <= i < seg_len implies #[trigger] section.phys()[i]
                            == win[i] by {
                            assert(section.phys()[i] == self.controller.pixel(
                                sid.strip_idx as int,
                                start + i,
                            ));
                        }
                        assert(section.phys() =~= win);
                        assert(section.logical() =~= orient(win, seg_rev));
                    }
                    inst.run(&mut section);
                    let ghost run = instance_run_spec(inst_before, orient(win, seg_rev));
                    proof {
                        assert(section.phys() =~= orient(run.1, seg_rev)) by {
                            assert forall|p: int|
                                0 <= p < seg_len implies #[trigger] section.phys()[p] == orient(
                                run.1,
                                seg_rev,
                            )[p] by {
                                assert(section.logical()[section.phys_index(p)] == section.phys()[
                                    section.phys_index(section.phys_index(p))
                                ]);
                            }
                        }
                    }
                    self.controller.write_section(sid.strip_idx, start, section);
                    proof {
                        let stepped = run_segment(cs_before, cfg0, inst_before, sid);
                        assert(self.controller.state@ =~= stepped.0);
                        assert(inst == stepped.1);
                        assert(run_segments(prev.0, cfg0, entry_v.1.instance, sids@, s as int + 1)
                            == stepped);
                    }
                } else {
                    proof {
                        assert(run_segment(cs_before, cfg0, inst_before, sid) == (
                            cs_before,
                            inst_before,
                        ));
                    }
                }
                s = s + 1;
            }

            // Store the advanced instance back.
            let tgt = self.effects_state[e].0.duplicate();
            let eid = self.effects_state[e].1.effect_id.clone();
            self.effects_state.set(e, (tgt, RunningEffect { effect_id: eid, instance: inst }));
            proof {
                assert(sids@.take(m as int) =~= sids@);
                assert(table_view(self.effects_state@) =~= run_entries(
                    cs0,
                    cfg0,
                    t0,
                    e as int + 1,
                ).1);
                lemma_run_entries_frame(cs0, cfg0, t0, e as int + 1);
                lemma_run_segments_frame(prev.0, cfg0, entry_v.1.instance, sids@, m as int);
                assert forall|i: int, j: int|
                    0 <= i < j < table_view(self.effects_state@).len() implies table_view(
                    self.effects_state@,
                )[i].0 != table_view(self.effects_state@)[j].0 by {
                    assert(table_view(self.effects_state@)[i].0 == t0[i].0);
                    assert(table_view(self.effects_state@)[j].0 == t0[j].0);
                }
            }
            e = e + 1;
        }
        let frame = self.controller.encode_state(
            self.config.inner.brightness,
            self.config.inner.as_srgb,
        );
        frame
    }

    /// Build a runner from loaded values and bring them into a valid state:
    /// the topology is repaired first, then the display state is reconciled
    /// (populating the instance table from scratch).  The caller persists
    /// both files afterwards.
    pub fn new(
        registry: EffectRegistry,
        controller: Controller,
        config: GlobalConfig,
        state: DisplayState,
        presets: Presets,
    ) -> (r: Result<EffectRunner, RunnerError>)
        requires
            registry.wf(),
            controller.wf(),
            presets_wf(presets@),
        ensures
            ({
                let vcfg = validated_config(config@);
                let rows = repaired_rows(registry, vcfg, state@);
                match r {
                    Ok(runner) => {
                        &&& runner.wf()
                        &&& rows_ok(registry, rows)
                        &&& runner.registry == registry
                        &&& runner.controller == controller
                        &&& runner.config.inner@ == vcfg
                        &&& runner.state.inner@ =~= rows
                        &&& runner.state.inner@.len() >= 1
                        &&& rows_refs_valid(vcfg, runner.state.inner@)
                        &&& runner.presets.inner == presets
                        &&& table_view(runner.effects_state@) =~= apply_rows(
                            Seq::<(TargetV, RunningV)>::empty(),
                            rows,
                        )
                        &&& runner.notifier.latest is None
                    },
                    Err(e) => !rows_ok(registry, rows) && e is Config,
                }
            }),
    {
        let mut runner = EffectRunner {
            registry,
            effects_state: Vec::new(),
            controller,
            config: Config::new(config),
            state: Config::new(state),
            presets: Config::new(presets),
            notifier: ChangeNotifier::new(),
        };
        proof {
            assert(table_view(runner.effects_state@) =~= Seq::<(TargetV, RunningV)>::empty());
        }
        runner.validate_config();
        match runner.validate_state() {
            Ok(()) => Ok(runner),
            Err(e) => Err(e),
        }
    }

    /// Replace the strips, then repair the topology and reconcile the
    /// display state against it.  The caller persists both files.
    pub fn set_segments(&mut self, strips: Vec<Strip>) -> (r: Result<(), RunnerError>)
        requires
            old(self).wf(),
        ensures
            final(self).wf(),
            ({
                let cfg1 = GlobalConfigV {
                    brightness: old(self).config.inner@.brightness,
                    as_srgb: old(self).config.inner@.as_srgb,
                    strips: strips@.map_values(|s: Strip| s@),
                    groups: old(self).config.inner@.groups,
                };
                let vcfg = validated_config(cfg1);
                let rows = repaired_rows(old(self).registry, vcfg, old(self).state.inner@);
                &&& final(self).config.inner@ == vcfg
                &&& final(self).state.inner@ =~= rows
                &&& rows_refs_valid(vcfg, final(self).state.inner@)
                &&& (r is Ok <==> rows_ok(old(self).registry, rows))
                &&& (r is Ok ==> table_view(final(self).effects_state@) =~= apply_rows(
                    table_view(old(self).effects_state@),
                    rows,
                ))
                &&& (r is Err ==> final(self).effects_state == old(self).effects_state && r->Err_0
                    is Config)
            }),
            final(self).state.inner@.len() >= 1,
            final(self).presets == old(self).presets,
            final(self).controller == old(self).controller,
            final(self).registry == old(self).registry,
            final(self).notifier == old(self).notifier,
    {
        self.config.inner.strips = strips;
        self.validate_config();
        self.validate_state()
    }

    /// Replace the groups, then repair the topology and reconcile the
    /// display state against it.  The caller persists both files.
    pub fn set_groups(&mut self, groups: Vec<Group>) -> (r: Result<(), RunnerError>)
        requires
            old(self).wf(),
        ensures
            final(self).wf(),
            ({
                let cfg1 = GlobalConfigV {
                    brightness: old(self).config.inner@.brightness,
                    as_srgb: old(self).config.inner@.as_srgb,
                    strips: old(self).config.inner@.strips,
                    groups: groups@.map_values(|g: Group| g@),
                };
                let vcfg = validated_config(cfg1);
                let rows = repaired_rows(old(self).registry, vcfg, old(self).state.inner@);
                &&& final(self).config.inner@ == vcfg
                &&& final(self).state.inner@ =~= rows
                &&& rows_refs_valid(vcfg, final(self).state.inner@)
                &&& (r is Ok <==> rows_ok(old(self).registry, rows))
                &&& (r is Ok ==> table_view(final(self).effects_state@) =~= apply_rows(
                    table_view(old(self).effects_state@),
                    rows,
                ))
                &&& (r is Err ==> final(self).effects_state == old(self).effects_state && r->Err_0
                    is Config)
            }),
            final(self).state.inner@.len() >= 1,
            final(self).presets == old(self).presets,
            final(self).controller == old(self).controller,
            final(self).registry == old(self).registry,
            final(self).notifier == old(self).notifier,
    {
        self.config.inner.groups = groups;
        self.validate_config();
        self.validate_state()
    }

    /// Replace the whole display state: reconcile it, and on success publish
    /// the current (repaired) state to subscribers.  The caller persists the
    /// file.
    pub fn set_state(&mut self, state: DisplayState) -> (r: Result<(), RunnerError>)
        requires
            old(self).wf(),
        ensures
            final(self).wf(),
            final(self).config == old(self).config,
            final(self).presets == old(self).presets,
            final(self).controller == old(self).controller,
            final(self).registry == old(self).registry,
            final(self).state.inner@ =~= repaired_rows(
                old(self).registry,
                old(self).config.inner@,
                state@,
            ),
            final(self).state.inner@.len() >= 1,
            rows_refs_valid(old(self).config.inner@, final(self).state.inner@),
            r is Ok <==> rows_ok(
                old(self).registry,
                repaired_rows(old(self).registry, old(self).config.inner@, state@),
            ),
            r is Ok ==> table_view(final(self).effects_state@) =~= apply_rows(
                table_view(old(self).effects_state@),
                repaired_rows(old(self).registry, old(self).config.inner@, state@),
            ),
            r is Ok ==> final(self).notifier.latest is Some && final(self).notifier.latest->Some_0@
                == final(self).state.inner@,
            r is Err ==> final(self).effects_state == old(self).effects_state && final(self).notifier == old(self).notifier && r->Err_0 is Config,
    {
        self.state.set(state);
        let r = self.validate_state();
        match r {
            Ok(()) => {
                let announced = self.state.inner.duplicate();
                self.notifier.notify(announced);
                Ok(())
            },
            Err(e) => Err(e),
        }
    }

    /// Replace one row's effect assignment by index, then reconcile and (on
    /// success) publish.  An index past the rows fails without any change.
    pub fn set_state_effect(&mut self, index: usize, effect_id: String, config: EffectConfig) -> (r:
        Result<(), RunnerError>)
        requires
            old(self).wf(),
        ensures
            final(self).wf(),
            index >= old(self).state.inner@.len() ==> r == Err::<(), RunnerError>(
                RunnerError::RowIndexOutOfRange,
            ) && *final(self) == *old(self),
            ({
                let rows1 = old(self).state.inner@.update(
                    index as int,
                    RowV {
                        effect_id: effect_id@,
                        config,
                        segment_ids: old(self).state.inner@[index as int].segment_ids,
                        group_ids: old(self).state.inner@[index as int].group_ids,
                    },
                );
                index < old(self).state.inner@.len() ==> {
                    &&& final(self).state.inner@ =~= repaired_rows(
                        old(self).registry,
                        old(self).config.inner@,
                        rows1,
                    )
                    &&& (r is Ok <==> rows_ok(
                        old(self).registry,
                        repaired_rows(old(self).registry, old(self).config.inner@, rows1),
                    ))
                    &&& (r is Ok ==> table_view(final(self).effects_state@) =~= apply_rows(
                        table_view(old(self).effects_state@),
                        repaired_rows(old(self).registry, old(self).config.inner@, rows1),
                    ))
                    &&& (r is Ok ==> final(self).notifier.latest is Some
                        && final(self).notifier.latest->Some_0@ == final(self).state.inner@)
                    &&& (r is Err ==> final(self).effects_state == old(self).effects_state
                        && final(self).notifier == old(self).notifier && r->Err_0 is Config)
                }
            }),
            final(self).config == old(self).config,
            final(self).presets == old(self).presets,
            final(self).controller == old(self).controller,
            final(self).registry == old(self).registry,
    {
        if index >= self.state.inner.effects.len() {
            return Err(RunnerError::RowIndexOutOfRange);
        }
        let mut row = self.state.inner.effects[index].duplicate();
        row.effect_id = effect_id;
        row.config = config;
        self.state.inner.effects.set(index, row);
        proof {
            assert(self.state.inner@ =~= old(self).state.inner@.update(
                index as int,
                RowV {
                    effect_id: effect_id@,
                    config,
                    segment_ids: old(self).state.inner@[index as int].segment_ids,
                    group_ids: old(self).state.inner@[index as int].group_ids,
                },
            ));
        }
        let r = self.validate_state();
        match r {
            Ok(()) => {
                let announced = self.state.inner.duplicate();
                self.notifier.notify(announced);
                Ok(())
            },
            Err(e) => Err(e),
        }
    }

    /// Store a snapshot under `name`, replacing what the name held.  The
    /// caller persists the presets file.
    pub fn set_preset(&mut self, name: String, preset: DisplayState)
        requires
            old(self).wf(),
        ensures
            final(self).wf(),
            preset_find(final(self).presets.inner@, name@) == Some(preset@),
            forall|n: Seq<char>|
                n != name@ ==> preset_find(final(self).presets.inner@, n) == preset_find(
                    old(self).presets.inner@,
                    n,
                ),
            final(self).config == old(self).config,
            final(self).state == old(self).state,
            final(self).controller == old(self).controller,
            final(self).registry == old(self).registry,
            final(self).effects_state == old(self).effects_state,
            final(self).notifier == old(self).notifier,
    {
        let ghost p0 = self.presets.inner@;
        proof {
            lemma_preset_index(p0, name@);
        }
        match preset_position(&self.presets.inner, &name) {
            Some(j) => {
                self.presets.inner.0.set(j, (name, preset));
                proof {
                    assert(self.presets.inner@ =~= p0.update(j as int, (name@, preset@)));
                    lemma_preset_find_update(p0, j as int, (name@, preset@), name@);
                    assert forall|n: Seq<char>|
                        n != name@ implies preset_find(self.presets.inner@, n) == preset_find(
                        p0,
                        n,
                    ) by {
                        lemma_preset_find_update(p0, j as int, (name@, preset@), n);
                    }
                }
            },
            None => {
                self.presets.inner.0.push((name, preset));
                proof {
                    assert(self.presets.inner@ =~= p0.push((name@, preset@)));
                    lemma_preset_find_push(p0, (name@, preset@), name@);
                    assert forall|n: Seq<char>|
                        n != name@ implies preset_find(self.presets.inner@, n) == preset_find(
                        p0,
                        n,
                    ) by {
                        lemma_preset_find_push(p0, (name@, preset@), n);
                    }
                    assert forall|i: int, j: int|
                        0 <= i < j < self.presets.inner@.len() implies self.presets.inner@[i].0
                        != self.presets.inner@[j].0 by {
                        if j == self.presets.inner@.len() - 1 {
                            assert(p0[i].0 != name@);
                        }
                    }
                }
            },
        }
    }

    /// Remove the snapshot stored under `name`; removing an absent name is
    /// not an error and changes nothing.  The caller persists the file.
    pub fn delete_preset(&mut self, name: &String)
        requires
            old(self).wf(),
        ensures
            final(self).wf(),
            preset_find(final(self).presets.inner@, name@) is None,
            forall|n: Seq<char>|
                n != name@ ==> preset_find(final(self).presets.inner@, n) == preset_find(
                    old(self).presets.inner@,
                    n,
                ),
            final(self).config == old(self).config,
            final(self).state == old(self).state,
            final(self).controller == old(self).controller,
            final(self).registry == old(self).registry,
            final(self).effects_state == old(self).effects_state,
            final(self).notifier == old(self).notifier,
    {
        let ghost p0 = self.presets.inner@;
        proof {
            lemma_preset_index(p0, name@);
        }
        match preset_position(&self.presets.inner, name) {
            Some(j) => {
                self.presets.inner.0.remove(j);
                proof {
                    assert(self.presets.inner@ =~= p0.remove(j as int));
                    lemma_preset_find_remove(p0, j as int, name@);
                    assert forall|n: Seq<char>|
                        n != name@ implies preset_find(self.presets.inner@, n) == preset_find(
                        p0,
                        n,
                    ) by {
                        lemma_preset_find_remove(p0, j as int, n);
                    }
                    assert forall|i: int, k: int|
                        0 <= i < k < self.presets.inner@.len() implies self.presets.inner@[i].0
                        != self.presets.inner@[k].0 by {
                        let oi = if i < j { i } else { i + 1 };
                        let ok = if k < j { k } else { k + 1 };
                        assert(self.presets.inner@[i] == p0[oi]);
                        assert(self.presets.inner@[k] == p0[ok]);
                    }
                }
            },
            None => {},
        }
    }

    /// Store the current display state as a snapshot under `name`.  The
    /// caller persists the file.
    pub fn save_preset(&mut self, name: String)
        requires
            old(self).wf(),
        ensures
            final(self).wf(),
            preset_find(final(self).presets.inner@, name@) == Some(old(self).state.inner@),
            forall|n: Seq<char>|
                n != name@ ==> preset_find(final(self).presets.inner@, n) == preset_find(
                    old(self).presets.inner@,
                    n,
                ),
            final(self).config == old(self).config,
            final(self).state == old(self).state,
            final(self).controller == old(self).controller,
            final(self).registry == old(self).registry,
            final(self).effects_state == old(self).effects_state,
            final(self).notifier == old(self).notifier,
    {
        let snapshot = self.state.inner.duplicate();
        self.set_preset(name, snapshot);
    }

    /// Make the snapshot stored under `name` the current display state, as
    /// `set_state` does; an unknown name fails without any change.
    pub fn load_preset(&mut self, name: &String) -> (r: Result<(), RunnerError>)
        requires
            old(self).wf(),
        ensures
            final(self).wf(),
            preset_find(old(self).presets.inner@, name@) is None ==> r == Err::<(), RunnerError>(
                RunnerError::UnknownPreset,
            ) && *final(self) == *old(self),
            ({
                let snap = preset_find(old(self).presets.inner@, name@);
                snap is Some ==> {
                    let rows = repaired_rows(
                        old(self).registry,
                        old(self).config.inner@,
                        snap->Some_0,
                    );
                    &&& final(self).state.inner@ =~= rows
                    &&& (r is Ok <==> rows_ok(old(self).registry, rows))
                    &&& (r is Ok ==> table_view(final(self).effects_state@) =~= apply_rows(
                        table_view(old(self).effects_state@),
                        rows,
                    ))
                    &&& (r is Ok ==> final(self).notifier.latest is Some
                        && final(self).notifier.latest->Some_0@ == final(self).state.inner@)
                    &&& (r is Err ==> final(self).effects_state == old(self).effects_state
                        && final(self).notifier == old(self).notifier && r->Err_0 is Config)
                }
            }),
            final(self).config == old(self).config,
            final(self).presets == old(self).presets,
            final(self).controller == old(self).controller,
            final(self).registry == old(self).registry,
    {
        proof {
            lemma_preset_index(self.presets.inner@, name@);
        }
        match preset_position(&self.presets.inner, name) {
            Some(j) => {
                let snapshot = self.presets.inner.0[j].1.duplicate();
                self.set_state(snapshot)
            },
            None => Err(RunnerError::UnknownPreset),
        }
    }

    /// The current global output settings.
    pub fn get_global_config(&self) -> (c: ApiConfig)
        ensures
            c.brightness == self.config.inner@.brightness,
            c.srgb == self.config.inner@.as_srgb,
    {
        ApiConfig { brightness: self.config.inner.brightness, srgb: self.config.inner.as_srgb }
    }

    /// Replace the global output settings.  The caller persists the
    /// configuration afterwards.
    pub fn set_global_config(&mut self, c: ApiConfig)
        requires
            old(self).wf(),
        ensures
            final(self).wf(),
            final(self).config.inner@.brightness == c.brightness,
            final(self).config.inner@.as_srgb == c.srgb,
            final(self).config.inner@.strips == old(self).config.inner@.strips,
            final(self).config.inner@.groups == old(self).config.inner@.groups,
            final(self).state == old(self).state,
            final(self).presets == old(self).presets,
            final(self).effects_state == old(self).effects_state,
            final(self).controller == old(self).controller,
            final(self).registry == old(self).registry,
            final(self).notifier == old(self).notifier,
    {
        self.config.inner.brightness = c.brightness;
        self.config.inner.as_srgb = c.srgb;
    }

    /// The configured strips.
    pub fn list_segments(&self) -> (r: &Vec<Strip>)
        ensures
            r@.map_values(|s: Strip| s@) == self.config.inner@.strips,
    {
        &self.config.inner.strips
    }

    /// The configured groups.
    pub fn list_groups(&self) -> (r: &Vec<Group>)
        ensures
            r@.map_values(|g: Group| g@) == self.config.inner@.groups,
    {
        &self.config.inner.groups
    }

    /// The stored presets.
    pub fn list_presets(&self) -> (r: &Presets)
        ensures
            r@ == self.presets.inner@,
    {
        &self.presets.inner
    }

    /// The current display state.
    pub fn get_state(&self) -> (r: &DisplayState)
        ensures
            r@ == self.state.inner@,
    {
        &self.state.inner
    }

    /// The registered effect kinds, for the API listing: one entry per
    /// kind, in registration order, carrying the kind's identifier and its
    /// default configuration.
    pub fn list_effects(&self) -> (r: Vec<crate::effects::EffectData>)
        ensures
            r@.len() == self.registry.kinds@.len(),
            forall|j: int|
                0 <= j < r@.len() ==> #[trigger] r@[j].id@ == self.registry.kinds@[j].spec_id()
                    && r@[j].name@ == self.registry.kinds@[j].spec_id() && r@[j].default_config
                    == self.registry.kinds@[j].spec_default_config(),
    {
        self.registry.list()
    }

    /// The change notifier carrying the latest published display state.
    pub fn change_notifier(&self) -> (n: &ChangeNotifier)
        ensures
            n == &self.notifier,
    {
        &self.notifier
    }
}

} // verus!
