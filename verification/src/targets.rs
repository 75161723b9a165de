//! Order in which render targets are drawn in a frame.
//!
//! A render target (a texture that draws go to) must be finished before any
//! draw samples it. The targets of a frame are the live textures that draws
//! go to, in the order of their first draw; a target depends on the render
//! targets that its image draws sample. Targets are drawn depth first, each
//! after its dependencies; a dependency cycle is an error.
use vstd::prelude::*;

use crate::registry::{entry_ready, ResourceRegistry};

verus! {

/// What the scheduling reads of a draw command: the texture it draws into
/// (0 for the window), and for an image draw the image it draws and the
/// images bound to its shader slots (in slot order).
#[derive(Debug, Clone)]
pub struct TargetDraw {
    pub target: u32,
    pub is_text: bool,
    pub image: u32,
    pub extra_images: Vec<u32>,
}

/// The draw as plain values.
pub struct DrawView {
    pub target: u32,
    pub is_text: bool,
    pub image: u32,
    pub extra_images: Seq<u32>,
}

/// The draws as plain values.
pub open spec fn draw_views(draws: Seq<TargetDraw>) -> Seq<DrawView> {
    draws.map_values(
        |d: TargetDraw| DrawView { target: d.target, is_text: d.is_text, image: d.image, extra_images: d.extra_images@ },
    )
}

/// `s` with every element after its first occurrence dropped.
pub open spec fn dedup(s: Seq<u32>) -> Seq<u32>
    decreases s.len(),
{
    if s.len() == 0 {
        s
    } else {
        let d = dedup(s.drop_last());
        if d.contains(s.last()) {
            d
        } else {
            d.push(s.last())
        }
    }
}

/// Texture `t` exists and its GPU copy belongs to the current generation.
pub open spec fn target_live(reg: ResourceRegistry, t: u32) -> bool {
    reg.texture_at(t as int) matches Some(e) && entry_ready(e, reg.generation())
}

/// Targets of the draws that are live textures, in draw order, with
/// repeats.
pub open spec fn live_targets(reg: ResourceRegistry, draws: Seq<DrawView>) -> Seq<u32>
    decreases draws.len(),
{
    if draws.len() == 0 {
        Seq::empty()
    } else {
        let rest = live_targets(reg, draws.drop_last());
        let t = draws.last().target;
        if t != 0 && target_live(reg, t) {
            rest.push(t)
        } else {
            rest
        }
    }
}

/// Texture of the first registered image among `images`.
pub open spec fn first_registered_texture(reg: ResourceRegistry, images: Seq<u32>) -> Option<u32>
    decreases images.len(),
{
    if images.len() == 0 {
        None
    } else {
        match reg.image_at(images[0] as int) {
            Some(e) => Some(e.texture_id),
            None => first_registered_texture(reg, images.drop_first()),
        }
    }
}

/// The texture an image draw samples: that of its image, else that of the
/// first registered image bound to its shader; text draws sample none.
pub open spec fn sampled_texture(reg: ResourceRegistry, d: DrawView) -> Option<u32> {
    if d.is_text {
        None
    } else {
        match reg.image_at(d.image as int) {
            Some(e) => Some(e.texture_id),
            None => first_registered_texture(reg, d.extra_images),
        }
    }
}

/// Texture `dep` is a render target other than `target` (and not the
/// window).
pub open spec fn valid_dependency(reg: ResourceRegistry, dep: u32, target: u32) -> bool {
    &&& dep != 0
    &&& dep != target
    &&& reg.texture_at(dep as int) matches Some(e) && e.render_target
}

/// Render targets sampled by the draws into `target`, in draw order, with
/// repeats.
pub open spec fn raw_dependencies(reg: ResourceRegistry, draws: Seq<DrawView>, target: u32) -> Seq<u32>
    decreases draws.len(),
{
    if draws.len() == 0 {
        Seq::empty()
    } else {
        let rest = raw_dependencies(reg, draws.drop_last(), target);
        let d = draws.last();
        match sampled_texture(reg, d) {
            Some(t) => if d.target == target && valid_dependency(reg, t, target) {
                rest.push(t)
            } else {
                rest
            },
            None => rest,
        }
    }
}

/// Render targets that `target` depends on, each once, in draw order.
pub open spec fn dependencies(reg: ResourceRegistry, draws: Seq<DrawView>, target: u32) -> Seq<u32> {
    dedup(raw_dependencies(reg, draws, target))
}

/// Draws target `t` (after its dependencies) unless it is in `done`;
/// `visiting` holds the targets being drawn further up. Gives the drawn
/// targets in order, or the target that closes a dependency cycle. `fuel`
/// bounds the depth.
pub open spec fn visit(
    reg: ResourceRegistry,
    draws: Seq<DrawView>,
    t: u32,
    done: Seq<u32>,
    visiting: Seq<u32>,
    fuel: nat,
) -> Result<Seq<u32>, u32>
    decreases fuel, 0int, 0int,
{
    if done.contains(t) {
        Ok(done)
    } else if visiting.contains(t) || fuel == 0 {
        Err(t)
    } else {
        match visit_all(reg, draws, t, dependencies(reg, draws, t), 0, done, visiting.push(t), (fuel - 1) as nat) {
            Ok(d) => Ok(d.push(t)),
            Err(c) => Err(c),
        }
    }
}

/// Visits the dependencies `deps` of `t` from position `i` on.
pub open spec fn visit_all(
    reg: ResourceRegistry,
    draws: Seq<DrawView>,
    t: u32,
    deps: Seq<u32>,
    i: int,
    done: Seq<u32>,
    visiting: Seq<u32>,
    fuel: nat,
) -> Result<Seq<u32>, u32>
    decreases fuel, 1int, deps.len() - i,
{
    if i >= deps.len() || i < 0 {
        Ok(done)
    } else if deps[i] == t {
        visit_all(reg, draws, t, deps, i + 1, done, visiting, fuel)
    } else {
        match visit(reg, draws, deps[i], done, visiting, fuel) {
            Ok(d) => visit_all(reg, draws, t, deps, i + 1, d, visiting, fuel),
            Err(c) => Err(c),
        }
    }
}

/// Visits the targets `ts` from position `i` on, each from scratch.
pub open spec fn visit_targets(
    reg: ResourceRegistry,
    draws: Seq<DrawView>,
    ts: Seq<u32>,
    i: int,
    done: Seq<u32>,
    fuel: nat,
) -> Result<Seq<u32>, u32>
    decreases ts.len() - i,
{
    if i >= ts.len() || i < 0 {
        Ok(done)
    } else {
        match visit(reg, draws, ts[i], done, Seq::empty(), fuel) {
            Ok(d) => visit_targets(reg, draws, ts, i + 1, d, fuel),
            Err(c) => Err(c),
        }
    }
}

/// The order in which the render targets of the frame are drawn, or the
/// target that closes a dependency cycle.
pub open spec fn render_order_spec(reg: ResourceRegistry, draws: Seq<DrawView>) -> Result<Seq<u32>, u32> {
    visit_targets(reg, draws, dedup(live_targets(reg, draws)), 0, Seq::empty(), reg.next_ids().0 as nat)
}

/// No identifier occurs twice in `s`.
pub open spec fn distinct_ids(s: Seq<u32>) -> bool {
    forall|i: int, j: int| 0 <= i < s.len() && 0 <= j < s.len() && i != j ==> #[trigger] s[i] != #[trigger] s[j]
}

proof fn lemma_distinct_in_range(s: Seq<u32>, n: int)
    requires
        1 <= n <= u32::MAX + 1,
        distinct_ids(s),
        forall|k: int| 0 <= k < s.len() ==> 1 <= #[trigger] s[k] < n,
    ensures
        s.len() <= n - 1,
    decreases n,
{
    if n == 1 {
        if s.len() > 0 {
            assert(1 <= s[0] < n);
        }
    } else if s.contains((n - 1) as u32) {
        let k = choose|k: int| 0 <= k < s.len() && s[k] == (n - 1) as u32;
        let r = s.remove(k);
        assert forall|a: int, b: int| 0 <= a < r.len() && 0 <= b < r.len() && a != b implies #[trigger] r[a] != #[trigger] r[b] by {
            let oa = if a < k { a } else { a + 1 };
            let ob = if b < k { b } else { b + 1 };
            assert(r[a] == s[oa] && r[b] == s[ob]);
        }
        assert forall|j: int| 0 <= j < r.len() implies 1 <= #[trigger] r[j] < n - 1 by {
            let oj = if j < k { j } else { j + 1 };
            assert(r[j] == s[oj]);
            assert(oj != k);
        }
        lemma_distinct_in_range(r, n - 1);
    } else {
        assert forall|j: int| 0 <= j < s.len() implies 1 <= #[trigger] s[j] < n - 1 by {
            assert(s[j] != (n - 1) as u32);
        }
        lemma_distinct_in_range(s, n - 1);
    }
}

fn contains_id(v: &Vec<u32>, x: u32) -> (b: bool)
    ensures
        b == v@.contains(x),
{
    let mut i: usize = 0;
    while i < v.len()
        invariant
            0 <= i <= v@.len(),
            forall|j: int| 0 <= j < i ==> v@[j] != x,
        decreases v@.len() - i,
    {
        if v[i] == x {
            return true;
        }
        i = i + 1;
    }
    false
}

/// The live textures that the draws go to, each once, in the order of their
/// first draw.
pub fn collect_target_ids(reg: &ResourceRegistry, draws: &[TargetDraw]) -> (ids: Vec<u32>)
    ensures
        ids@ == dedup(live_targets(*reg, draw_views(draws@))),
{
    let ghost views = draw_views(draws@);
    let mut ids: Vec<u32> = Vec::new();
    let mut i: usize = 0;
    while i < draws.len()
        invariant
            0 <= i <= draws@.len(),
            views == draw_views(draws@),
            ids@ == dedup(live_targets(*reg, views.take(i as int))),
        decreases draws@.len() - i,
    {
        proof {
            assert(views.take(i + 1).drop_last() =~= views.take(i as int));
            assert(views.take(i + 1).last() == views[i as int]);
        }
        let t = draws[i].target;
        if t != 0 && reg.texture_is_ready(t) {
            proof {
                assert(live_targets(*reg, views.take(i + 1)) == live_targets(*reg, views.take(i as int)).push(t));
                assert(live_targets(*reg, views.take(i + 1)).drop_last() =~= live_targets(*reg, views.take(i as int)));
            }
            if !contains_id(&ids, t) {
                ids.push(t);
            }
        }
        i = i + 1;
    }
    assert(views.take(i as int) =~= views);
    ids
}

/// Texture of the first registered image among `images`.
fn first_registered(reg: &ResourceRegistry, images: &Vec<u32>) -> (r: Option<u32>)
    ensures
        r == first_registered_texture(*reg, images@),
{
    assert(images@.skip(0) =~= images@);
    let mut i: usize = 0;
    while i < images.len()
        invariant
            0 <= i <= images@.len(),
            first_registered_texture(*reg, images@) == first_registered_texture(*reg, images@.skip(i as int)),
        decreases images@.len() - i,
    {
        assert(images@.skip(i as int).drop_first() =~= images@.skip(i + 1));
        assert(images@.skip(i as int)[0] == images@[i as int]);
        match reg.image(images[i]) {
            Some(e) => {
                return Some(e.texture_id);
            },
            None => {},
        }
        i = i + 1;
    }
    None
}

/// The texture that draw `d` samples.
fn draw_sampled_texture(reg: &ResourceRegistry, d: &TargetDraw) -> (r: Option<u32>)
    ensures
        r == sampled_texture(
            *reg,
            DrawView { target: d.target, is_text: d.is_text, image: d.image, extra_images: d.extra_images@ },
        ),
{
    if d.is_text {
        return None;
    }
    match reg.image(d.image) {
        Some(e) => Some(e.texture_id),
        None => first_registered(reg, &d.extra_images),
    }
}

/// The render targets that `target` depends on, each once, in draw order.
pub fn target_dependencies(reg: &ResourceRegistry, draws: &[TargetDraw], target: u32) -> (deps: Vec<u32>)
    ensures
        deps@ == dependencies(*reg, draw_views(draws@), target),
{
    let ghost views = draw_views(draws@);
    let mut deps: Vec<u32> = Vec::new();
    let mut i: usize = 0;
    while i < draws.len()
        invariant
            0 <= i <= draws@.len(),
            views == draw_views(draws@),
            deps@ == dedup(raw_dependencies(*reg, views.take(i as int), target)),
        decreases draws@.len() - i,
    {
        proof {
            assert(views.take(i + 1).drop_last() =~= views.take(i as int));
            assert(views.take(i + 1).last() == views[i as int]);
        }
        let d = &draws[i];
        if d.target == target {
            match draw_sampled_texture(reg, d) {
                Some(dep) => {
                    if dep != 0 && dep != target && reg.texture_is_render_target(dep) {
                        proof {
                            assert(raw_dependencies(*reg, views.take(i + 1), target).drop_last()
                                =~= raw_dependencies(*reg, views.take(i as int), target));
                        }
                        if !contains_id(&deps, dep) {
                            deps.push(dep);
                        }
                    }
                },
                None => {},
            }
        }
        i = i + 1;
    }
    assert(views.take(i as int) =~= views);
    deps
}

proof fn lemma_dedup_from(s: Seq<u32>)
    ensures
        forall|k: int| 0 <= k < dedup(s).len() ==> s.contains(#[trigger] dedup(s)[k]),
    decreases s.len(),
{
    if s.len() > 0 {
        lemma_dedup_from(s.drop_last());
        let d = dedup(s.drop_last());
        assert forall|k: int| 0 <= k < dedup(s).len() implies s.contains(#[trigger] dedup(s)[k]) by {
            if k < d.len() {
                assert(d[k] == dedup(s)[k]);
                let j = choose|j: int| 0 <= j < s.drop_last().len() && s.drop_last()[j] == d[k];
                assert(s[j] == d[k]);
            } else {
                assert(dedup(s)[k] == s.last());
                assert(s[s.len() - 1] == s.last());
            }
        }
    }
}

proof fn lemma_live_targets_live(reg: ResourceRegistry, draws: Seq<DrawView>)
    ensures
        forall|k: int| 0 <= k < live_targets(reg, draws).len() ==> target_live(reg, #[trigger] live_targets(reg, draws)[k]),
    decreases draws.len(),
{
    if draws.len() > 0 {
        let rest = live_targets(reg, draws.drop_last());
        lemma_live_targets_live(reg, draws.drop_last());
        assert forall|k: int| 0 <= k < live_targets(reg, draws).len() implies target_live(reg, #[trigger] live_targets(reg, draws)[k]) by {
            if k < rest.len() {
                assert(live_targets(reg, draws)[k] == rest[k]);
            }
        }
    }
}

proof fn lemma_raw_dependencies_valid(reg: ResourceRegistry, draws: Seq<DrawView>, target: u32)
    ensures
        forall|k: int|
            0 <= k < raw_dependencies(reg, draws, target).len() ==> valid_dependency(
                reg,
                #[trigger] raw_dependencies(reg, draws, target)[k],
                target,
            ),
    decreases draws.len(),
{
    if draws.len() > 0 {
        let rest = raw_dependencies(reg, draws.drop_last(), target);
        lemma_raw_dependencies_valid(reg, draws.drop_last(), target);
        assert forall|k: int| 0 <= k < raw_dependencies(reg, draws, target).len() implies valid_dependency(
            reg,
            #[trigger] raw_dependencies(reg, draws, target)[k],
            target,
        ) by {
            if k < rest.len() {
                assert(raw_dependencies(reg, draws, target)[k] == rest[k]);
            }
        }
    }
}

/// Every dependency of `target` is an existing render target.
proof fn lemma_dependencies_exist(reg: ResourceRegistry, draws: Seq<DrawView>, target: u32)
    ensures
        forall|k: int|
            0 <= k < dependencies(reg, draws, target).len() ==> valid_dependency(
                reg,
                #[trigger] dependencies(reg, draws, target)[k],
                target,
            ),
{
    let raw = raw_dependencies(reg, draws, target);
    lemma_dedup_from(raw);
    lemma_raw_dependencies_valid(reg, draws, target);
    assert forall|k: int| 0 <= k < dependencies(reg, draws, target).len() implies valid_dependency(
        reg,
        #[trigger] dependencies(reg, draws, target)[k],
        target,
    ) by {
        let x = dependencies(reg, draws, target)[k];
        assert(raw.contains(x));
        let j = choose|j: int| 0 <= j < raw.len() && raw[j] == x;
        assert(valid_dependency(reg, raw[j], target));
    }
}

/// Draws target `t` after its dependencies (see `visit`), appending the
/// targets drawn to `done`; `visiting` holds the targets being drawn
/// further up.
fn visit_target(
    reg: &ResourceRegistry,
    draws: &[TargetDraw],
    t: u32,
    done: &mut Vec<u32>,
    visiting: &mut Vec<u32>,
    Ghost(fuel): Ghost<nat>,
) -> (r: Result<(), u32>)
    requires
        reg.wf(),
        reg.texture_at(t as int) is Some,
        distinct_ids(old(visiting)@),
        forall|k: int| 0 <= k < old(visiting)@.len() ==> (#[trigger] reg.texture_at(old(visiting)@[k] as int)) is Some,
        fuel + old(visiting)@.len() == reg.next_ids().0,
    ensures
        match visit(*reg, draw_views(draws@), t, old(done)@, old(visiting)@, fuel) {
            Ok(d) => r is Ok && final(done)@ == d && final(visiting)@ == old(visiting)@,
            Err(c) => r == Err::<(), u32>(c),
        },
    decreases fuel,
{
    let ghost views = draw_views(draws@);
    if contains_id(done, t) {
        return Ok(());
    }
    if contains_id(visiting, t) {
        return Err(t);
    }
    proof {
        let v2 = visiting@.push(t);
        assert forall|a: int, b: int| 0 <= a < v2.len() && 0 <= b < v2.len() && a != b implies #[trigger] v2[a] != #[trigger] v2[b] by {
            if a < visiting@.len() && b < visiting@.len() {
                assert(v2[a] == visiting@[a] && v2[b] == visiting@[b]);
            } else if a < visiting@.len() {
                assert(v2[a] == visiting@[a]);
            } else {
                assert(v2[b] == visiting@[b]);
            }
        }
        assert forall|k: int| 0 <= k < v2.len() implies 1 <= #[trigger] v2[k] < reg.next_ids().0 by {
            if k < visiting@.len() {
                assert(v2[k] == visiting@[k]);
                assert(reg.texture_at(visiting@[k] as int) is Some);
            }
            reg.lemma_texture_ids_bounded(v2[k] as int);
        }
        reg.lemma_texture_ids_bounded(t as int);
        lemma_distinct_in_range(v2, reg.next_ids().0 as int);
    }
    let ghost before_visiting = visiting@;
    let ghost done0 = done@;
    visiting.push(t);
    let deps = target_dependencies(reg, draws, t);
    proof {
        lemma_dependencies_exist(*reg, views, t);
    }
    let ghost f1: nat = (fuel - 1) as nat;
    let mut i: usize = 0;
    while i < deps.len()
        invariant
            0 <= i <= deps@.len(),
            views == draw_views(draws@),
            deps@ == dependencies(*reg, views, t),
            forall|k: int| 0 <= k < deps@.len() ==> valid_dependency(*reg, #[trigger] deps@[k], t),
            visiting@ == before_visiting.push(t),
            distinct_ids(visiting@),
            forall|k: int| 0 <= k < visiting@.len() ==> (#[trigger] reg.texture_at(visiting@[k] as int)) is Some,
            f1 + visiting@.len() == reg.next_ids().0,
            f1 < fuel,
            f1 == fuel - 1,
            before_visiting == old(visiting)@,
            done0 == old(done)@,
            !done0.contains(t),
            !before_visiting.contains(t),
            reg.wf(),
            visit_all(*reg, views, t, deps@, 0, done0, before_visiting.push(t), f1) == visit_all(
                *reg,
                views,
                t,
                deps@,
                i as int,
                done@,
                before_visiting.push(t),
                f1,
            ),
        decreases deps@.len() - i,
    {
        let dep = deps[i];
        if dep != t {
            assert(valid_dependency(*reg, deps@[i as int], t));
            match visit_target(reg, draws, dep, done, visiting, Ghost(f1)) {
                Ok(()) => {},
                Err(c) => {
                    return Err(c);
                },
            }
        }
        i = i + 1;
    }
    visiting.pop();
    assert(visiting@ =~= before_visiting);
    done.push(t);
    Ok(())
}

/// The order in which the render targets of the frame are drawn: each
/// target once, after the render targets it samples; or the target that
/// closes a dependency cycle.
pub fn render_order(reg: &ResourceRegistry, draws: &[TargetDraw]) -> (r: Result<Vec<u32>, u32>)
    requires
        reg.wf(),
    ensures
        match render_order_spec(*reg, draw_views(draws@)) {
            Ok(o) => r matches Ok(v) && v@ == o,
            Err(c) => r matches Err(e) && e == c,
        },
{
    let ghost views = draw_views(draws@);
    let targets = collect_target_ids(reg, draws);
    proof {
        lemma_dedup_from(live_targets(*reg, views));
        lemma_live_targets_live(*reg, views);
    }
    let mut done: Vec<u32> = Vec::new();
    let mut visiting: Vec<u32> = Vec::new();
    let next = reg.next_texture_id();
    let mut i: usize = 0;
    while i < targets.len()
        invariant
            0 <= i <= targets@.len(),
            views == draw_views(draws@),
            targets@ == dedup(live_targets(*reg, views)),
            forall|k: int| 0 <= k < targets@.len() ==> live_targets(*reg, views).contains(#[trigger] targets@[k]),
            forall|k: int| 0 <= k < live_targets(*reg, views).len() ==> target_live(*reg, #[trigger] live_targets(*reg, views)[k]),
            visiting@ == Seq::<u32>::empty(),
            next == reg.next_ids().0,
            reg.wf(),
            render_order_spec(*reg, views) == visit_targets(*reg, views, targets@, i as int, done@, next as nat),
        decreases targets@.len() - i,
    {
        proof {
            assert(live_targets(*reg, views).contains(targets@[i as int]));
            let j = choose|j: int| 0 <= j < live_targets(*reg, views).len() && live_targets(*reg, views)[j] == targets@[i as int];
            assert(target_live(*reg, live_targets(*reg, views)[j]));
        }
        match visit_target(reg, draws, targets[i], &mut done, &mut visiting, Ghost(next as nat)) {
            Ok(()) => {},
            Err(c) => {
                return Err(c);
            },
        }
        i = i + 1;
    }
    Ok(done)
}

/// `x` occurs in `s` before position `k`.
pub open spec fn appears_before(s: Seq<u32>, x: u32, k: int) -> bool {
    exists|m: int| 0 <= m < k && m < s.len() && s[m] == x
}

/// Every target of `order` comes after all the render targets it depends
/// on.
pub open spec fn dependencies_first(reg: ResourceRegistry, draws: Seq<DrawView>, order: Seq<u32>) -> bool {
    forall|k: int, j: int|
        0 <= k < order.len() && 0 <= j < dependencies(reg, draws, order[k]).len() ==> appears_before(
            order,
            #[trigger] dependencies(reg, draws, order[k])[j],
            k,
        )
}

/// `b` starts with `a`.
pub open spec fn extends(a: Seq<u32>, b: Seq<u32>) -> bool {
    a.len() <= b.len() && forall|m: int| 0 <= m < a.len() ==> #[trigger] b[m] == a[m]
}

/// Facts about a successful `visit` that keep an order well formed.
pub open spec fn visit_good(
    reg: ResourceRegistry,
    draws: Seq<DrawView>,
    done: Seq<u32>,
    visiting: Seq<u32>,
    d: Seq<u32>,
) -> bool {
    &&& extends(done, d)
    &&& dependencies_first(reg, draws, d)
    &&& distinct_ids(d)
    &&& forall|v: u32| visiting.contains(v) && !done.contains(v) ==> !d.contains(v)
}

proof fn lemma_extends_keeps_first(reg: ResourceRegistry, draws: Seq<DrawView>, a: Seq<u32>, b: Seq<u32>)
    requires
        extends(a, b),
        dependencies_first(reg, draws, a),
    ensures
        forall|k: int, j: int|
            0 <= k < a.len() && 0 <= j < dependencies(reg, draws, b[k]).len() ==> appears_before(
                b,
                #[trigger] dependencies(reg, draws, b[k])[j],
                k,
            ),
{
    assert forall|k: int, j: int|
        0 <= k < a.len() && 0 <= j < dependencies(reg, draws, b[k]).len() implies appears_before(
        b,
        #[trigger] dependencies(reg, draws, b[k])[j],
        k,
    ) by {
        assert(b[k] == a[k]);
        let x = dependencies(reg, draws, a[k])[j];
        assert(appears_before(a, x, k));
        let m = choose|m: int| 0 <= m < k && m < a.len() && a[m] == x;
        assert(b[m] == a[m]);
    }
}

proof fn lemma_visit_good(reg: ResourceRegistry, draws: Seq<DrawView>, t: u32, done: Seq<u32>, visiting: Seq<u32>, fuel: nat)
    requires
        dependencies_first(reg, draws, done),
        distinct_ids(done),
    ensures
        visit(reg, draws, t, done, visiting, fuel) matches Ok(d) ==> visit_good(reg, draws, done, visiting, d)
            && d.contains(t),
    decreases fuel, 0int, 0int,
{
    if done.contains(t) {
        assert(extends(done, done));
    } else if visiting.contains(t) || fuel == 0 {
    } else {
        let deps = dependencies(reg, draws, t);
        let vis = visiting.push(t);
        let f1 = (fuel - 1) as nat;
        lemma_visit_all_good(reg, draws, t, deps, 0, done, vis, f1);
        lemma_dependencies_exist(reg, draws, t);
        if let Ok(d2) = visit_all(reg, draws, t, deps, 0, done, vis, f1) {
            let d3 = d2.push(t);
            assert(vis.contains(t)) by {
                assert(vis[visiting.len() as int] == t);
            }
            assert(!d2.contains(t));
            lemma_extends_keeps_first(reg, draws, d2, d3);
            assert(extends(d2, d3));
            assert forall|k: int, j: int|
                0 <= k < d3.len() && 0 <= j < dependencies(reg, draws, d3[k]).len() implies appears_before(
                d3,
                #[trigger] dependencies(reg, draws, d3[k])[j],
                k,
            ) by {
                if k == d2.len() {
                    let x = dependencies(reg, draws, t)[j];
                    assert(valid_dependency(reg, x, t));
                    assert(d2.contains(x));
                    let m = choose|m: int| 0 <= m < d2.len() && d2[m] == x;
                    assert(d3[m] == x);
                }
            }
            assert forall|a: int, b: int| 0 <= a < d3.len() && 0 <= b < d3.len() && a != b implies #[trigger] d3[a]
                != #[trigger] d3[b] by {
                if a < d2.len() && b < d2.len() {
                    assert(d3[a] == d2[a] && d3[b] == d2[b]);
                } else if a < d2.len() {
                    assert(d3[a] == d2[a]);
                    assert(d2.contains(d2[a]));
                } else {
                    assert(d3[b] == d2[b]);
                    assert(d2.contains(d2[b]));
                }
            }
            assert forall|v: u32| visiting.contains(v) && !done.contains(v) implies !d3.contains(v) by {
                let p = choose|p: int| 0 <= p < visiting.len() && visiting[p] == v;
                assert(vis[p] == v);
                assert(!d2.contains(v));
                if d3.contains(v) {
                    let q = choose|q: int| 0 <= q < d3.len() && d3[q] == v;
                    if q < d2.len() {
                        assert(d2[q] == v);
                    } else {
                        assert(v == t);
                    }
                }
            }
            assert(extends(done, d3)) by {
                assert forall|m: int| 0 <= m < done.len() implies #[trigger] d3[m] == done[m] by {
                    assert(d2[m] == done[m]);
                }
            }
            assert(d3[d2.len() as int] == t);
        }
    }
}

proof fn lemma_visit_all_good(
    reg: ResourceRegistry,
    draws: Seq<DrawView>,
    t: u32,
    deps: Seq<u32>,
    i: int,
    done: Seq<u32>,
    visiting: Seq<u32>,
    fuel: nat,
)
    requires
        0 <= i,
        dependencies_first(reg, draws, done),
        distinct_ids(done),
    ensures
        visit_all(reg, draws, t, deps, i, done, visiting, fuel) matches Ok(d) ==> visit_good(
            reg,
            draws,
            done,
            visiting,
            d,
        ) && forall|j: int| i <= j < deps.len() && 0 <= j && #[trigger] deps[j] != t ==> d.contains(deps[j]),
    decreases fuel, 1int, deps.len() - i,
{
    if i >= deps.len() || i < 0 {
        assert(extends(done, done));
    } else if deps[i] == t {
        lemma_visit_all_good(reg, draws, t, deps, i + 1, done, visiting, fuel);
    } else {
        lemma_visit_good(reg, draws, deps[i], done, visiting, fuel);
        if let Ok(d) = visit(reg, draws, deps[i], done, visiting, fuel) {
            lemma_visit_all_good(reg, draws, t, deps, i + 1, d, visiting, fuel);
            if let Ok(d2) = visit_all(reg, draws, t, deps, i + 1, d, visiting, fuel) {
                assert(extends(done, d2)) by {
                    assert forall|m: int| 0 <= m < done.len() implies #[trigger] d2[m] == done[m] by {
                        assert(d[m] == done[m]);
                    }
                }
                assert(d2.contains(deps[i])) by {
                    let q = choose|q: int| 0 <= q < d.len() && d[q] == deps[i];
                    assert(d2[q] == d[q]);
                }
                assert forall|j: int| i <= j < deps.len() && 0 <= j && #[trigger] deps[j] != t implies d2.contains(deps[j]) by {
                    if j == i {
                    } else {
                        assert(i + 1 <= j);
                    }
                }
                assert forall|v: u32| visiting.contains(v) && !done.contains(v) implies !d2.contains(v) by {
                    assert(!d.contains(v));
                }
            }
        }
    }
}

proof fn lemma_visit_targets_good(reg: ResourceRegistry, draws: Seq<DrawView>, ts: Seq<u32>, i: int, done: Seq<u32>, fuel: nat)
    requires
        0 <= i,
        dependencies_first(reg, draws, done),
        distinct_ids(done),
    ensures
        visit_targets(reg, draws, ts, i, done, fuel) matches Ok(d) ==> dependencies_first(reg, draws, d)
            && distinct_ids(d) && extends(done, d) && forall|j: int| i <= j < ts.len() && 0 <= j ==> d.contains(
            #[trigger] ts[j],
        ),
    decreases ts.len() - i,
{
    if i >= ts.len() || i < 0 {
        assert(extends(done, done));
    } else {
        lemma_visit_good(reg, draws, ts[i], done, Seq::empty(), fuel);
        if let Ok(d) = visit(reg, draws, ts[i], done, Seq::empty(), fuel) {
            lemma_visit_targets_good(reg, draws, ts, i + 1, d, fuel);
            if let Ok(d2) = visit_targets(reg, draws, ts, i + 1, d, fuel) {
                assert(extends(done, d2)) by {
                    assert forall|m: int| 0 <= m < done.len() implies #[trigger] d2[m] == done[m] by {
                        assert(d[m] == done[m]);
                    }
                }
                assert(d2.contains(ts[i])) by {
                    let q = choose|q: int| 0 <= q < d.len() && d[q] == ts[i];
                    assert(d2[q] == d[q]);
                }
                assert forall|j: int| i <= j < ts.len() && 0 <= j implies d2.contains(#[trigger] ts[j]) by {
                    if j == i {
                    } else {
                        assert(i + 1 <= j);
                    }
                }
            }
        }
    }
}

/// When the render targets of a frame can be ordered, every live target
/// that a draw goes to is drawn exactly once, and after every render target
/// that its draws sample.
pub proof fn lemma_render_order_respects_dependencies(reg: ResourceRegistry, draws: Seq<DrawView>)
    ensures
        render_order_spec(reg, draws) matches Ok(order) ==> {
            &&& dependencies_first(reg, draws, order)
            &&& distinct_ids(order)
            &&& forall|k: int| 0 <= k < live_targets(reg, draws).len() ==> order.contains(
                #[trigger] live_targets(reg, draws)[k],
            )
        },
{
    let ts = dedup(live_targets(reg, draws));
    lemma_visit_targets_good(reg, draws, ts, 0, Seq::empty(), reg.next_ids().0 as nat);
    lemma_dedup_covers(live_targets(reg, draws));
    if let Ok(order) = render_order_spec(reg, draws) {
        assert forall|k: int| 0 <= k < live_targets(reg, draws).len() implies order.contains(
            #[trigger] live_targets(reg, draws)[k],
        ) by {
            let x = live_targets(reg, draws)[k];
            assert(ts.contains(x));
            let j = choose|j: int| 0 <= j < ts.len() && ts[j] == x;
            assert(order.contains(ts[j]));
        }
    }
}

proof fn lemma_dedup_covers(s: Seq<u32>)
    ensures
        forall|k: int| 0 <= k < s.len() ==> dedup(s).contains(#[trigger] s[k]),
    decreases s.len(),
{
    if s.len() > 0 {
        lemma_dedup_covers(s.drop_last());
        let d = dedup(s.drop_last());
        assert forall|k: int| 0 <= k < s.len() implies dedup(s).contains(#[trigger] s[k]) by {
            if k < s.len() - 1 {
                assert(s[k] == s.drop_last()[k]);
                assert(d.contains(s[k]));
                let q = choose|q: int| 0 <= q < d.len() && d[q] == s[k];
                if !d.contains(s.last()) {
                    assert(dedup(s)[q] == d[q]);
                }
            } else {
                if !d.contains(s.last()) {
                    assert(dedup(s)[d.len() as int] == s.last());
                }
            }
        }
    }
}

/// Render target `a` depends on render target `b`.
pub open spec fn depends(reg: ResourceRegistry, draws: Seq<DrawView>, a: u32, b: u32) -> bool {
    dependencies(reg, draws, a).contains(b)
}

/// Each target of `path` depends on the next one.
pub open spec fn dependency_chain(reg: ResourceRegistry, draws: Seq<DrawView>, path: Seq<u32>) -> bool {
    forall|i: int, j: int| 0 <= i && j == i + 1 && j < path.len() ==> #[trigger] depends(reg, draws, path[i], path[j])
}

/// `path` leads from a render target through its dependencies back to
/// itself.
pub open spec fn dependency_cycle(reg: ResourceRegistry, draws: Seq<DrawView>, path: Seq<u32>) -> bool {
    &&& path.len() >= 2
    &&& path[0] == path[path.len() - 1]
    &&& dependency_chain(reg, draws, path)
}

/// The stack of targets being drawn is a chain of dependencies of existing
/// textures, without repeats, which `t` continues; `fuel` is what is left of
/// the texture count.
spec fn stack_ok(reg: ResourceRegistry, draws: Seq<DrawView>, t: u32, visiting: Seq<u32>, fuel: nat) -> bool {
    &&& reg.wf()
    &&& reg.texture_at(t as int) is Some
    &&& dependency_chain(reg, draws, visiting)
    &&& (visiting.len() > 0 ==> depends(reg, draws, visiting[visiting.len() - 1], t))
    &&& distinct_ids(visiting)
    &&& forall|k: int| 0 <= k < visiting.len() ==> (#[trigger] reg.texture_at(visiting[k] as int)) is Some
    &&& fuel + visiting.len() == reg.next_ids().0
}

proof fn lemma_visit_error_cycle(reg: ResourceRegistry, draws: Seq<DrawView>, t: u32, done: Seq<u32>, visiting: Seq<u32>, fuel: nat)
    requires
        stack_ok(reg, draws, t, visiting, fuel),
    ensures
        visit(reg, draws, t, done, visiting, fuel) matches Err(c) ==> exists|path: Seq<u32>|
            dependency_cycle(reg, draws, path) && path[0] == c,
    decreases fuel, 0int, 0int,
{
    if done.contains(t) {
    } else if visiting.contains(t) {
        let p = choose|p: int| 0 <= p < visiting.len() && visiting[p] == t;
        let path = visiting.subrange(p, visiting.len() as int).push(t);
        assert forall|i: int, j: int| 0 <= i && j == i + 1 && j < path.len() implies #[trigger] depends(
            reg,
            draws,
            path[i],
            path[j],
        ) by {
            if j < path.len() - 1 {
                assert(path[i] == visiting[p + i] && path[j] == visiting[p + j]);
            } else {
                assert(path[i] == visiting[visiting.len() - 1]);
            }
        }
        assert(path[0] == path[path.len() - 1]);
        assert(dependency_cycle(reg, draws, path));
    } else {
        let v2 = visiting.push(t);
        assert forall|a: int, b: int| 0 <= a < v2.len() && 0 <= b < v2.len() && a != b implies #[trigger] v2[a]
            != #[trigger] v2[b] by {
            if a < visiting.len() && b < visiting.len() {
                assert(v2[a] == visiting[a] && v2[b] == visiting[b]);
            } else if a < visiting.len() {
                assert(v2[a] == visiting[a]);
            } else {
                assert(v2[b] == visiting[b]);
            }
        }
        assert forall|k: int| 0 <= k < v2.len() implies 1 <= #[trigger] v2[k] < reg.next_ids().0 by {
            if k < visiting.len() {
                assert(v2[k] == visiting[k]);
                assert(reg.texture_at(visiting[k] as int) is Some);
            }
            reg.lemma_texture_ids_bounded(v2[k] as int);
        }
        reg.lemma_texture_ids_bounded(t as int);
        lemma_distinct_in_range(v2, reg.next_ids().0 as int);
        assert(fuel > 0);
        let deps = dependencies(reg, draws, t);
        assert forall|i: int, j: int| 0 <= i && j == i + 1 && j < v2.len() implies #[trigger] depends(
            reg,
            draws,
            v2[i],
            v2[j],
        ) by {
            if j < visiting.len() {
                assert(v2[i] == visiting[i] && v2[j] == visiting[j]);
                assert(depends(reg, draws, visiting[i], visiting[j]));
            } else {
                assert(v2[i] == visiting[visiting.len() - 1]);
            }
        }
        assert forall|k: int| 0 <= k < v2.len() implies (#[trigger] reg.texture_at(v2[k] as int)) is Some by {
            if k < visiting.len() {
                assert(v2[k] == visiting[k]);
            }
        }
        lemma_visit_all_error_cycle(reg, draws, t, deps, 0, done, v2, (fuel - 1) as nat);
    }
}

proof fn lemma_visit_all_error_cycle(
    reg: ResourceRegistry,
    draws: Seq<DrawView>,
    t: u32,
    deps: Seq<u32>,
    i: int,
    done: Seq<u32>,
    visiting: Seq<u32>,
    fuel: nat,
)
    requires
        reg.wf(),
        deps == dependencies(reg, draws, t),
        visiting.len() > 0,
        visiting[visiting.len() - 1] == t,
        dependency_chain(reg, draws, visiting),
        distinct_ids(visiting),
        forall|k: int| 0 <= k < visiting.len() ==> (#[trigger] reg.texture_at(visiting[k] as int)) is Some,
        fuel + visiting.len() == reg.next_ids().0,
    ensures
        visit_all(reg, draws, t, deps, i, done, visiting, fuel) matches Err(c) ==> exists|path: Seq<u32>|
            dependency_cycle(reg, draws, path) && path[0] == c,
    decreases fuel, 1int, deps.len() - i,
{
    if i >= deps.len() || i < 0 {
    } else if deps[i] == t {
        lemma_visit_all_error_cycle(reg, draws, t, deps, i + 1, done, visiting, fuel);
    } else {
        lemma_dependencies_exist(reg, draws, t);
        assert(valid_dependency(reg, deps[i], t));
        assert(depends(reg, draws, t, deps[i]));
        lemma_visit_error_cycle(reg, draws, deps[i], done, visiting, fuel);
        if let Ok(d) = visit(reg, draws, deps[i], done, visiting, fuel) {
            lemma_visit_all_error_cycle(reg, draws, t, deps, i + 1, d, visiting, fuel);
        }
    }
}

proof fn lemma_visit_targets_error_cycle(reg: ResourceRegistry, draws: Seq<DrawView>, ts: Seq<u32>, i: int, done: Seq<u32>)
    requires
        reg.wf(),
        forall|k: int| 0 <= k < ts.len() ==> (#[trigger] reg.texture_at(ts[k] as int)) is Some,
    ensures
        visit_targets(reg, draws, ts, i, done, reg.next_ids().0 as nat) matches Err(c) ==> exists|path: Seq<u32>|
            dependency_cycle(reg, draws, path) && path[0] == c,
    decreases ts.len() - i,
{
    if i >= ts.len() || i < 0 {
    } else {
        assert(reg.texture_at(ts[i] as int) is Some);
        lemma_visit_error_cycle(reg, draws, ts[i], done, Seq::empty(), reg.next_ids().0 as nat);
        if let Ok(d) = visit(reg, draws, ts[i], done, Seq::empty(), reg.next_ids().0 as nat) {
            lemma_visit_targets_error_cycle(reg, draws, ts, i + 1, d);
        }
    }
}

/// The render targets of a frame can be ordered unless their dependencies
/// form a cycle: the target reported goes, through the render targets it
/// samples, back to itself.
pub proof fn lemma_render_order_error_is_cycle(reg: ResourceRegistry, draws: Seq<DrawView>)
    requires
        reg.wf(),
    ensures
        render_order_spec(reg, draws) matches Err(c) ==> exists|path: Seq<u32>|
            dependency_cycle(reg, draws, path) && path[0] == c,
{
    let ts = dedup(live_targets(reg, draws));
    lemma_dedup_from(live_targets(reg, draws));
    lemma_live_targets_live(reg, draws);
    assert forall|k: int| 0 <= k < ts.len() implies (#[trigger] reg.texture_at(ts[k] as int)) is Some by {
        let x = ts[k];
        assert(live_targets(reg, draws).contains(x));
        let j = choose|j: int| 0 <= j < live_targets(reg, draws).len() && live_targets(reg, draws)[j] == x;
        assert(target_live(reg, live_targets(reg, draws)[j]));
    }
    lemma_visit_targets_error_cycle(reg, draws, ts, 0, Seq::empty());
}

} // verus!
