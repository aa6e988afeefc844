//! Target selection and refinement pipelines compiled from targeting rows.

use super::registration::{resolve_tags, tag_resolution_failure};
use super::validation::{first_failure, id_row, lemma_failure_persists, row_field, uses_radius};
use crate::config::error::{
    ConfigError, ConfigErrorKind, ErrorSite, reports, row_field_location, row_location,
    site_with,
};
use crate::config::generated::{
    SelectionKind, SortOrder, Tables, Targeting, TargetingView, TablesView,
};
use crate::config::numeric::{spec_square_is_finite, square_is_finite};
use vstd::prelude::*;

verus! {

/// One operation of a targeting pipeline, applied in order.
#[derive(Debug, Clone, Copy, PartialEq, Eq, Structural)]
pub enum TargetingStep {
    /// Selects the source entity.
    SelectSelf,
    /// Selects the explicitly requested entity.
    SelectExplicitEntity,
    /// Selects entities within a radius (binary32 bit pattern).
    SelectSphere { radius: u32 },
    /// Selects entities within a radius and a half angle (binary32 bit patterns).
    SelectCone { radius: u32, half_angle_radians: u32 },
    /// Removes the source entity.
    FilterSource,
    /// Keeps entities meeting the row's required and blocked tags.
    FilterTags,
    /// Keeps entities that carry an attribute set.
    RequireAttributeSet,
    /// Keeps entities within a distance (binary32 bit pattern).
    FilterDistance { max_distance: u32 },
    /// Orders entities by distance, nearest first when ascending.
    SortByDistance { ascending: bool },
    /// Keeps at most `count` entities.
    Limit { count: usize },
}

/// The compiled pipeline of one targeting row.
#[derive(Debug)]
pub struct TargetingPlan {
    /// The authored targeting ID.
    pub id: i32,
    /// The pipeline, in order.
    pub steps: Vec<TargetingStep>,
}

// ---------------------------------------------------------------------------
// Specification

/// The row filters by tags.
pub open spec fn filters_tags(r: TargetingView) -> bool {
    r.required_tags.len() > 0 || r.blocked_tags.len() > 0
}

/// The first failure of compiling targeting row `r`, given the registered tag names.
pub open spec fn targeting_plan_failure(registered: Seq<Seq<char>>, r: TargetingView) -> Option<ErrorSite> {
    let table = "Targeting"@;
    let used_radius = if uses_radius(r.selection) { r.radius } else { None };
    let required = tag_resolution_failure(registered, r.required_tags);
    let blocked = tag_resolution_failure(registered, r.blocked_tags);
    if used_radius matches Some(v) && !spec_square_is_finite(v) {
        Some(site_with(ConfigErrorKind::InvalidValue, row_field(table, r.id, "radius"@), "distance must have a finite square"@))
    } else if r.max_distance matches Some(v) && !spec_square_is_finite(v) {
        Some(site_with(ConfigErrorKind::InvalidValue, row_field(table, r.id, "max_distance"@), "distance must have a finite square"@))
    } else if uses_radius(r.selection) && r.radius is None {
        Some(site_with(ConfigErrorKind::InvalidValue, id_row(table, r.id), "missing radius"@))
    } else if r.selection == SelectionKind::Cone && r.half_angle_radians is None {
        Some(site_with(ConfigErrorKind::InvalidValue, id_row(table, r.id), "missing cone angle"@))
    } else if filters_tags(r) && required is Some {
        Some(site_with(ConfigErrorKind::Reference, required.unwrap(), "unresolved registered tag"@))
    } else if filters_tags(r) && blocked is Some {
        Some(site_with(ConfigErrorKind::Reference, blocked.unwrap(), "unresolved registered tag"@))
    } else if r.limit < 0 {
        Some(site_with(ConfigErrorKind::InvalidValue, id_row(table, r.id), "target limit cannot be negative"@))
    } else {
        None
    }
}

/// The step that selects the first candidates of row `r`.
pub open spec fn selection_step(r: TargetingView) -> TargetingStep {
    match r.selection {
        SelectionKind::SelfTarget => TargetingStep::SelectSelf,
        SelectionKind::ExplicitEntity => TargetingStep::SelectExplicitEntity,
        SelectionKind::Sphere => TargetingStep::SelectSphere { radius: r.radius.unwrap() },
        SelectionKind::Cone => TargetingStep::SelectCone { radius: r.radius.unwrap(), half_angle_radians: r.half_angle_radians.unwrap() },
    }
}

/// `step` when `present`, otherwise nothing.
pub open spec fn step_if(present: bool, step: TargetingStep) -> Seq<TargetingStep> {
    if present { seq![step] } else { Seq::empty() }
}

/// The pipeline of row `r`: select, drop the source, filter by tags, require
/// attributes, filter by distance, sort, then limit.
pub open spec fn spec_targeting_plan(r: TargetingView) -> Seq<TargetingStep> {
    seq![selection_step(r)]
        + step_if(r.exclude_source, TargetingStep::FilterSource)
        + step_if(filters_tags(r), TargetingStep::FilterTags)
        + step_if(r.require_attributes, TargetingStep::RequireAttributeSet)
        + step_if(r.max_distance is Some, TargetingStep::FilterDistance { max_distance: r.max_distance.unwrap() })
        + step_if(r.sort != SortOrder::Unsorted, TargetingStep::SortByDistance { ascending: r.sort == SortOrder::Nearest })
        + seq![TargetingStep::Limit { count: r.limit as usize }]
}

/// A pipeline sorts by distance exactly when its row asks for an order, and every
/// sort step puts the nearest targets first exactly when the row asks for the
/// nearest: a row sorted by farthest sorts descending. The pipeline begins with
/// the row's selection and ends by keeping at most the row's limit.
pub proof fn lemma_plan_sorts_as_asked(r: TargetingView)
    ensures
        forall|k: int| 0 <= k < spec_targeting_plan(r).len() ==>
            (#[trigger] spec_targeting_plan(r)[k] matches TargetingStep::SortByDistance { ascending } ==> ascending == (r.sort == SortOrder::Nearest)),
        (exists|k: int| 0 <= k < spec_targeting_plan(r).len() && #[trigger] spec_targeting_plan(r)[k] is SortByDistance)
            <==> r.sort != SortOrder::Unsorted,
        r.sort == SortOrder::Farthest ==> spec_targeting_plan(r).contains(TargetingStep::SortByDistance { ascending: false }),
        spec_targeting_plan(r)[0] == selection_step(r),
        spec_targeting_plan(r).last() == (TargetingStep::Limit { count: r.limit as usize }),
{
    let plan = spec_targeting_plan(r);
    let head = seq![selection_step(r)]
        + step_if(r.exclude_source, TargetingStep::FilterSource)
        + step_if(filters_tags(r), TargetingStep::FilterTags)
        + step_if(r.require_attributes, TargetingStep::RequireAttributeSet)
        + step_if(r.max_distance is Some, TargetingStep::FilterDistance { max_distance: r.max_distance.unwrap() });
    let sort = step_if(r.sort != SortOrder::Unsorted, TargetingStep::SortByDistance { ascending: r.sort == SortOrder::Nearest });
    let tail = seq![TargetingStep::Limit { count: r.limit as usize }];
    assert(plan == head + sort + tail);
    assert forall|k: int| 0 <= k < head.len() implies !(#[trigger] head[k] is SortByDistance) by {
        let h1 = seq![selection_step(r)] + step_if(r.exclude_source, TargetingStep::FilterSource);
        let h2 = h1 + step_if(filters_tags(r), TargetingStep::FilterTags);
        let h3 = h2 + step_if(r.require_attributes, TargetingStep::RequireAttributeSet);
        assert(head == h3 + step_if(r.max_distance is Some, TargetingStep::FilterDistance { max_distance: r.max_distance.unwrap() }));
        if k >= h3.len() {
        } else if k >= h2.len() {
            assert(head[k] == h3[k]);
        } else if k >= h1.len() {
            assert(head[k] == h3[k] && h3[k] == h2[k]);
        } else {
            assert(head[k] == h3[k] && h3[k] == h2[k] && h2[k] == h1[k]);
        }
    }
    assert forall|k: int| 0 <= k < plan.len() implies
        (#[trigger] plan[k] matches TargetingStep::SortByDistance { ascending } ==> ascending == (r.sort == SortOrder::Nearest)) by {
        if k < head.len() {
            assert(plan[k] == head[k]);
        } else if k < head.len() + sort.len() {
            assert(plan[k] == sort[k - head.len()]);
        } else {
            assert(plan[k] == tail[k - head.len() - sort.len()]);
        }
    }
    if r.sort != SortOrder::Unsorted {
        assert(plan[head.len() as int] == sort[0]);
        if r.sort == SortOrder::Farthest {
            assert(plan[head.len() as int] == TargetingStep::SortByDistance { ascending: false });
        }
    } else {
        assert forall|k: int| 0 <= k < plan.len() implies !(#[trigger] plan[k] is SortByDistance) by {
            if k < head.len() {
                assert(plan[k] == head[k]);
            } else {
                assert(plan[k] == tail[k - head.len()]);
            }
        }
    }
}

/// A pipeline begins by selecting what its row asks for: the source, the
/// requested entity, a sphere of the row's radius, or a cone of the row's radius
/// and half angle.
pub proof fn lemma_plan_selects_as_asked(r: TargetingView, radius: u32, half_angle: u32)
    ensures
        r.selection == SelectionKind::SelfTarget ==> spec_targeting_plan(r)[0] == TargetingStep::SelectSelf,
        r.selection == SelectionKind::ExplicitEntity ==> spec_targeting_plan(r)[0] == TargetingStep::SelectExplicitEntity,
        r.selection == SelectionKind::Sphere && r.radius == Some(radius)
            ==> spec_targeting_plan(r)[0] == (TargetingStep::SelectSphere { radius }),
        r.selection == SelectionKind::Cone && r.radius == Some(radius) && r.half_angle_radians == Some(half_angle)
            ==> spec_targeting_plan(r)[0] == (TargetingStep::SelectCone { radius, half_angle_radians: half_angle }),
{
    lemma_plan_sorts_as_asked(r);
}

proof fn lemma_contains_add(a: Seq<TargetingStep>, b: Seq<TargetingStep>, x: TargetingStep)
    ensures
        (a + b).contains(x) <==> a.contains(x) || b.contains(x),
{
    if a.contains(x) {
        let i = choose|i: int| 0 <= i < a.len() && a[i] == x;
        assert((a + b)[i] == x);
    }
    if b.contains(x) {
        let i = choose|i: int| 0 <= i < b.len() && b[i] == x;
        assert((a + b)[a.len() + i] == x);
    }
    if (a + b).contains(x) {
        let i = choose|i: int| 0 <= i < (a + b).len() && (a + b)[i] == x;
        if i < a.len() {
            assert(a[i] == x);
        } else {
            assert(b[i - a.len()] == x);
        }
    }
}

proof fn lemma_step_if_contains(present: bool, step: TargetingStep, x: TargetingStep)
    ensures
        step_if(present, step).contains(x) <==> present && step == x,
        seq![step].contains(x) <==> step == x,
{
    if present {
        assert(step_if(present, step)[0] == step);
    }
    assert(seq![step][0] == step);
}

/// Each filter of a pipeline is there exactly when its row asks for it: the
/// source is dropped exactly when the row excludes it, tags are filtered exactly
/// when the row lists required or blocked tags, an attribute set is required
/// exactly when the row requires one, and targets are kept within a distance
/// exactly when the row sets that distance, which the step carries. The pipeline
/// keeps at most the row's limit and nothing else.
pub proof fn lemma_plan_filters_as_asked(r: TargetingView, d: u32, n: usize)
    ensures
        spec_targeting_plan(r).contains(TargetingStep::FilterSource) <==> r.exclude_source,
        spec_targeting_plan(r).contains(TargetingStep::FilterTags) <==> r.required_tags.len() > 0 || r.blocked_tags.len() > 0,
        spec_targeting_plan(r).contains(TargetingStep::RequireAttributeSet) <==> r.require_attributes,
        spec_targeting_plan(r).contains(TargetingStep::FilterDistance { max_distance: d }) <==> r.max_distance == Some(d),
        spec_targeting_plan(r).contains(TargetingStep::Limit { count: n }) <==> n == r.limit as usize,
{
    let x0 = seq![selection_step(r)];
    let x1 = step_if(r.exclude_source, TargetingStep::FilterSource);
    let x2 = step_if(filters_tags(r), TargetingStep::FilterTags);
    let x3 = step_if(r.require_attributes, TargetingStep::RequireAttributeSet);
    let x4 = step_if(r.max_distance is Some, TargetingStep::FilterDistance { max_distance: r.max_distance.unwrap() });
    let x5 = step_if(r.sort != SortOrder::Unsorted, TargetingStep::SortByDistance { ascending: r.sort == SortOrder::Nearest });
    let x6 = seq![TargetingStep::Limit { count: r.limit as usize }];
    assert(spec_targeting_plan(r) == x0 + x1 + x2 + x3 + x4 + x5 + x6);
    let steps = seq![TargetingStep::FilterSource, TargetingStep::FilterTags, TargetingStep::RequireAttributeSet,
        TargetingStep::FilterDistance { max_distance: d }, TargetingStep::Limit { count: n }];
    assert forall|k: int| 0 <= k < 5 implies
        ((x0 + x1 + x2 + x3 + x4 + x5 + x6).contains(#[trigger] steps[k]) <==> x0.contains(steps[k]) || x1.contains(steps[k])
            || x2.contains(steps[k]) || x3.contains(steps[k]) || x4.contains(steps[k]) || x5.contains(steps[k]) || x6.contains(steps[k])) by {
        let x = steps[k];
        lemma_contains_add(x0, x1, x);
        lemma_contains_add(x0 + x1, x2, x);
        lemma_contains_add(x0 + x1 + x2, x3, x);
        lemma_contains_add(x0 + x1 + x2 + x3, x4, x);
        lemma_contains_add(x0 + x1 + x2 + x3 + x4, x5, x);
        lemma_contains_add(x0 + x1 + x2 + x3 + x4 + x5, x6, x);
    }
    assert forall|k: int| 0 <= k < 5 implies
        (x0.contains(#[trigger] steps[k]) <==> selection_step(r) == steps[k])
        && (x1.contains(steps[k]) <==> r.exclude_source && TargetingStep::FilterSource == steps[k])
        && (x2.contains(steps[k]) <==> filters_tags(r) && TargetingStep::FilterTags == steps[k])
        && (x3.contains(steps[k]) <==> r.require_attributes && TargetingStep::RequireAttributeSet == steps[k])
        && (x4.contains(steps[k]) <==> r.max_distance is Some && TargetingStep::FilterDistance { max_distance: r.max_distance.unwrap() } == steps[k])
        && (x5.contains(steps[k]) <==> r.sort != SortOrder::Unsorted && TargetingStep::SortByDistance { ascending: r.sort == SortOrder::Nearest } == steps[k])
        && (x6.contains(steps[k]) <==> TargetingStep::Limit { count: r.limit as usize } == steps[k]) by {
        let x = steps[k];
        lemma_step_if_contains(true, selection_step(r), x);
        lemma_step_if_contains(r.exclude_source, TargetingStep::FilterSource, x);
        lemma_step_if_contains(filters_tags(r), TargetingStep::FilterTags, x);
        lemma_step_if_contains(r.require_attributes, TargetingStep::RequireAttributeSet, x);
        lemma_step_if_contains(r.max_distance is Some, TargetingStep::FilterDistance { max_distance: r.max_distance.unwrap() }, x);
        lemma_step_if_contains(r.sort != SortOrder::Unsorted, TargetingStep::SortByDistance { ascending: r.sort == SortOrder::Nearest }, x);
        lemma_step_if_contains(true, TargetingStep::Limit { count: r.limit as usize }, x);
    }
    assert(steps[0] == TargetingStep::FilterSource);
    assert(steps[1] == TargetingStep::FilterTags);
    assert(steps[2] == TargetingStep::RequireAttributeSet);
    assert(steps[3] == TargetingStep::FilterDistance { max_distance: d });
    assert(steps[4] == TargetingStep::Limit { count: n });
}

/// Checks of compiling the targeting rows, in row order.
pub open spec fn targeting_plans_check(t: TablesView, registered: Seq<Seq<char>>) -> spec_fn(int) -> Option<ErrorSite> {
    |i: int| targeting_plan_failure(registered, t.targetings[i])
}

// ---------------------------------------------------------------------------
// Construction

/// The first failure of the distance and selection fields of row `r`.
pub open spec fn selection_failure(r: TargetingView) -> Option<ErrorSite> {
    let table = "Targeting"@;
    let used_radius = if uses_radius(r.selection) { r.radius } else { None };
    if used_radius matches Some(v) && !spec_square_is_finite(v) {
        Some(site_with(ConfigErrorKind::InvalidValue, row_field(table, r.id, "radius"@), "distance must have a finite square"@))
    } else if r.max_distance matches Some(v) && !spec_square_is_finite(v) {
        Some(site_with(ConfigErrorKind::InvalidValue, row_field(table, r.id, "max_distance"@), "distance must have a finite square"@))
    } else if uses_radius(r.selection) && r.radius is None {
        Some(site_with(ConfigErrorKind::InvalidValue, id_row(table, r.id), "missing radius"@))
    } else if r.selection == SelectionKind::Cone && r.half_angle_radians is None {
        Some(site_with(ConfigErrorKind::InvalidValue, id_row(table, r.id), "missing cone angle"@))
    } else {
        None
    }
}

fn plan_selection(row: &Targeting) -> (res: Result<TargetingStep, ConfigError>)
    ensures
        match selection_failure(row.deep_view()) {
            Some(s) => res matches Err(e) && reports(e@, s),
            None => res matches Ok(step) && step == selection_step(row.deep_view()),
        },
{
    let table = "Targeting";
    let radius_used = match row.selection {
        SelectionKind::Sphere => true,
        SelectionKind::Cone => true,
        _ => false,
    };
    if radius_used {
        if let Some(v) = row.radius {
            if !square_is_finite(v.0) {
                return Err(ConfigError::new(ConfigErrorKind::InvalidValue, row_field_location(table, row.id, "radius"), "distance must have a finite square"));
            }
        }
    }
    if let Some(v) = row.max_distance {
        if !square_is_finite(v.0) {
            return Err(ConfigError::new(ConfigErrorKind::InvalidValue, row_field_location(table, row.id, "max_distance"), "distance must have a finite square"));
        }
    }
    match row.selection {
        SelectionKind::SelfTarget => Ok(TargetingStep::SelectSelf),
        SelectionKind::ExplicitEntity => Ok(TargetingStep::SelectExplicitEntity),
        SelectionKind::Sphere => match row.radius {
            Some(v) => Ok(TargetingStep::SelectSphere { radius: v.0 }),
            None => Err(ConfigError::new(ConfigErrorKind::InvalidValue, row_location(table, row.id), "missing radius")),
        },
        SelectionKind::Cone => match row.radius {
            Some(v) => match row.half_angle_radians {
                Some(a) => Ok(TargetingStep::SelectCone { radius: v.0, half_angle_radians: a.0 }),
                None => Err(ConfigError::new(ConfigErrorKind::InvalidValue, row_location(table, row.id), "missing cone angle")),
            },
            None => Err(ConfigError::new(ConfigErrorKind::InvalidValue, row_location(table, row.id), "missing radius")),
        },
    }
}

fn push_if(steps: &mut Vec<TargetingStep>, present: bool, step: TargetingStep)
    ensures
        final(steps)@ == old(steps)@ + step_if(present, step),
{
    if present {
        steps.push(step);
        assert(final(steps)@ =~= old(steps)@ + seq![step]);
    } else {
        assert(final(steps)@ =~= old(steps)@ + Seq::<TargetingStep>::empty());
    }
}

fn pipeline(row: &Targeting, selection: TargetingStep) -> (steps: Vec<TargetingStep>)
    requires
        selection == selection_step(row.deep_view()),
        row.limit >= 0,
    ensures
        steps@ == spec_targeting_plan(row.deep_view()),
{
    let ghost r = row.deep_view();
    let mut steps: Vec<TargetingStep> = Vec::new();
    steps.push(selection);
    assert(steps@ =~= seq![selection_step(r)]);
    push_if(&mut steps, row.exclude_source, TargetingStep::FilterSource);
    push_if(&mut steps, row.required_tags.len() > 0 || row.blocked_tags.len() > 0, TargetingStep::FilterTags);
    push_if(&mut steps, row.require_attributes, TargetingStep::RequireAttributeSet);
    let distance = match row.max_distance {
        Some(d) => d.0,
        None => 0,
    };
    push_if(&mut steps, row.max_distance.is_some(), TargetingStep::FilterDistance { max_distance: distance });
    assert(step_if(row.max_distance.is_some(), TargetingStep::FilterDistance { max_distance: distance })
        == step_if(r.max_distance is Some, TargetingStep::FilterDistance { max_distance: r.max_distance.unwrap() }));
    let (sorted, ascending) = match row.sort {
        SortOrder::Unsorted => (false, false),
        SortOrder::Nearest => (true, true),
        SortOrder::Farthest => (true, false),
    };
    push_if(&mut steps, sorted, TargetingStep::SortByDistance { ascending });
    assert(step_if(sorted, TargetingStep::SortByDistance { ascending })
        == step_if(r.sort != SortOrder::Unsorted, TargetingStep::SortByDistance { ascending: r.sort == SortOrder::Nearest }));
    let ghost before = steps@;
    steps.push(TargetingStep::Limit { count: row.limit as usize });
    assert(steps@ =~= before + seq![TargetingStep::Limit { count: r.limit as usize }]);
    steps
}

/// Compiles the pipeline of targeting row `row` against the `registered` tag names.
pub fn plan_targeting(registered: &Vec<String>, row: &Targeting) -> (res: Result<Vec<TargetingStep>, ConfigError>)
    ensures
        match targeting_plan_failure(registered.deep_view(), row.deep_view()) {
            Some(s) => res matches Err(e) && reports(e@, s),
            None => res matches Ok(steps) && steps@ == spec_targeting_plan(row.deep_view()),
        },
{
    let selection = plan_selection(row)?;
    if row.required_tags.len() > 0 || row.blocked_tags.len() > 0 {
        resolve_tags(registered, &row.required_tags)?;
        resolve_tags(registered, &row.blocked_tags)?;
    }
    if row.limit < 0 {
        return Err(ConfigError::new(ConfigErrorKind::InvalidValue, row_location("Targeting", row.id), "target limit cannot be negative"));
    }
    Ok(pipeline(row, selection))
}

/// Compiles the pipeline of every targeting row in row order against the
/// `registered` tag names, stopping at the first failure.
pub fn plan_targetings(tables: &Tables, registered: &Vec<String>) -> (res: Result<Vec<TargetingPlan>, ConfigError>)
    ensures
        match first_failure(targeting_plans_check(tables.deep_view(), registered.deep_view()), tables.deep_view().targetings.len()) {
            Some(s) => res matches Err(e) && reports(e@, s),
            None => res matches Ok(plans) && plans@.len() == tables.deep_view().targetings.len()
                && forall|i: int| 0 <= i < plans@.len() ==> (#[trigger] plans@[i]).id == tables.deep_view().targetings[i].id
                    && plans@[i].steps@ == spec_targeting_plan(tables.deep_view().targetings[i]),
        },
{
    let ghost t = tables.deep_view();
    let ghost r = registered.deep_view();
    let rows = tables.tb_targeting.rows();
    let mut plans: Vec<TargetingPlan> = Vec::new();
    let mut i: usize = 0;
    while i < rows.len()
        invariant
            t == tables.deep_view(),
            r == registered.deep_view(),
            rows.deep_view() == t.targetings,
            i <= t.targetings.len(),
            first_failure(targeting_plans_check(t, r), i as nat) is None,
            plans@.len() == i,
            forall|k: int| 0 <= k < i ==> (#[trigger] plans@[k]).id == t.targetings[k].id
                && plans@[k].steps@ == spec_targeting_plan(t.targetings[k]),
        decreases t.targetings.len() - i,
    {
        assert(t.targetings[i as int] == rows@[i as int].deep_view());
        match plan_targeting(registered, &rows[i]) {
            Ok(steps) => {
                plans.push(TargetingPlan { id: rows[i].id, steps });
            },
            Err(e) => {
                proof {
                    lemma_failure_persists(targeting_plans_check(t, r), (i + 1) as nat, t.targetings.len());
                }
                return Err(e);
            },
        }
        i = i + 1;
    }
    Ok(plans)
}

} // verus!
