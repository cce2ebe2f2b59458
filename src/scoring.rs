use vstd::prelude::*;
use crate::color::{hsl_of, lemma_hsl_bounds, Ratio, Rgb};
use crate::swatch::Swatch;
use crate::target::{normalized, Target};

verus! {


// ---------------------------------------------------------------------------
// Scoring

/// The largest population among the swatches; zero for none.
pub open spec fn max_population(sw: Seq<Swatch>) -> nat
    decreases sw.len(),
{
    if sw.len() == 0 {
        0
    } else {
        let m = max_population(sw.drop_last());
        if sw.last().pop() > m {
            sw.last().pop()
        } else {
            m
        }
    }
}

/// The population that a swatch's population is measured against: the
/// largest one, or one when there is none.
pub open spec fn dominant_population(sw: Seq<Swatch>) -> nat {
    if max_population(sw) == 0 {
        1
    } else {
        max_population(sw)
    }
}

pub open spec fn abs(x: int) -> int {
    if x < 0 {
        -x
    } else {
        x
    }
}

/// The score of a swatch for a target, times the positive factor
/// `51000 * dominant * weight_scale * den`, where `den` is the denominator of
/// the swatch's saturation. The score is
/// `ws * (1 - |s - s_target|) + wl * (1 - |l - l_target|) + wp * population / dominant`.
pub open spec fn score_num(s: Swatch, t: Target, dominant: nat) -> int {
    let hsl = hsl_of(s.color());
    let sn = hsl.saturation.num as int;
    let sd = hsl.saturation.den as int;
    let ln = hsl.lightness.num as int;
    let d = dominant as int;
    t.weights.0 as int * 510 * d * (100 * sd - abs(100 * sn - t.saturation_targets.1 as int * sd))
        + t.weights.1 as int * sd * d * (51000 - abs(100 * ln - 510 * t.lightness_targets.1 as int))
        + t.weights.2 as int * s.pop() * 51000 * sd
}

/// The denominator of a swatch's saturation.
pub open spec fn score_den(s: Swatch) -> int {
    hsl_of(s.color()).saturation.den as int
}

/// Swatch `a` scores strictly higher than swatch `b` for the target.
pub open spec fn scores_higher(a: Swatch, b: Swatch, t: Target, dominant: nat) -> bool {
    score_num(a, t, dominant) * score_den(b) > score_num(b, t, dominant) * score_den(a)
}

/// The fraction `x` lies in the band's `[min, max]`, the band in hundredths.
pub open spec fn in_band(x: Ratio, band: (u32, u32, u32)) -> bool {
    band.0 * x.den <= 100 * x.num <= band.2 * x.den
}

/// A swatch may be scored for a target: its saturation and lightness lie in the
/// target's bands and its colour has not been taken yet.
pub open spec fn eligible(s: Swatch, t: Target, used: Seq<Rgb>) -> bool {
    &&& in_band(hsl_of(s.color()).saturation, t.saturation_targets)
    &&& in_band(hsl_of(s.color()).lightness, t.lightness_targets)
    &&& !used.contains(s.color())
}

/// The index of the eligible swatch of highest score among the first `n`,
/// the earliest one on a tie.
pub open spec fn best_swatch(sw: Seq<Swatch>, t: Target, used: Seq<Rgb>, n: int) -> Option<int>
    decreases n,
{
    if n <= 0 {
        None
    } else {
        let b = best_swatch(sw, t, used, n - 1);
        if eligible(sw[n - 1], t, used) && (b is None || scores_higher(
            sw[n - 1],
            sw[b.unwrap()],
            t,
            dominant_population(sw),
        )) {
            Some(n - 1)
        } else {
            b
        }
    }
}

/// The swatch that an exclusive target claims, given the colours already taken.
pub open spec fn claimed_swatch(sw: Seq<Swatch>, t: Target, used: Seq<Rgb>) -> Option<Swatch> {
    if !t.is_exclusive {
        None
    } else {
        match best_swatch(sw, t, used, sw.len() as int) {
            Some(i) => Some(sw[i]),
            None => None,
        }
    }
}

/// The colours taken once `pick` is recorded.
pub open spec fn record(used: Seq<Rgb>, pick: Option<Swatch>) -> Seq<Rgb> {
    match pick {
        Some(s) => used.push(s.color()),
        None => used,
    }
}

/// The swatches claimed by the targets from index `i` on, each target taking
/// its best swatch among those whose colour no earlier target has taken.
pub open spec fn selected_from(
    sw: Seq<Swatch>,
    targets: Seq<Target>,
    i: int,
    used: Seq<Rgb>,
) -> Seq<Option<Swatch>>
    decreases targets.len() - i,
{
    if i < 0 || i >= targets.len() {
        seq![]
    } else {
        let pick = claimed_swatch(sw, normalized(targets[i]), used);
        seq![pick] + selected_from(sw, targets, i + 1, record(used, pick))
    }
}

/// The swatch selected for each target, in target order.
pub open spec fn selected_swatches(sw: Seq<Swatch>, targets: Seq<Target>) -> Seq<Option<Swatch>> {
    selected_from(sw, targets, 0, seq![])
}

proof fn lemma_best_swatch_eligible(sw: Seq<Swatch>, t: Target, used: Seq<Rgb>, n: int)
    requires
        n <= sw.len(),
    ensures
        best_swatch(sw, t, used, n) matches Some(i) ==> 0 <= i < n && eligible(sw[i], t, used),
    decreases n,
{
    if n > 0 {
        lemma_best_swatch_eligible(sw, t, used, n - 1);
    }
}

proof fn lemma_fraction_order(n1: int, d1: int, n2: int, d2: int, n3: int, d3: int)
    requires
        d1 > 0,
        d2 > 0,
        d3 > 0,
        n1 * d2 > n2 * d1,
        n2 * d3 >= n3 * d2,
    ensures
        n1 * d3 > n3 * d1,
{
    assert(n1 * d2 * d3 > n2 * d1 * d3) by (nonlinear_arith)
        requires
            n1 * d2 > n2 * d1,
            d3 > 0,
    ;
    assert(n2 * d3 * d1 >= n3 * d2 * d1) by (nonlinear_arith)
        requires
            n2 * d3 >= n3 * d2,
            d1 > 0,
    ;
    assert(n1 * d3 > n3 * d1) by (nonlinear_arith)
        requires
            n1 * d2 * d3 > n2 * d1 * d3,
            n2 * d3 * d1 >= n3 * d2 * d1,
            d2 > 0,
    ;
}

/// A target claims an eligible swatch of highest score, and every eligible
/// swatch before it scores strictly lower, so the earliest of the best wins;
/// it claims none only when no swatch is eligible.
pub proof fn lemma_best_swatch_is_best(sw: Seq<Swatch>, t: Target, used: Seq<Rgb>, n: int)
    requires
        0 <= n <= sw.len(),
    ensures
        best_swatch(sw, t, used, n) is None <==> (forall|j: int|
            0 <= j < n ==> !#[trigger] eligible(sw[j], t, used)),
        best_swatch(sw, t, used, n) matches Some(i) ==> {
            &&& 0 <= i < n
            &&& eligible(sw[i], t, used)
            &&& forall|j: int|
                0 <= j < n && #[trigger] eligible(sw[j], t, used) ==> !scores_higher(
                    sw[j],
                    sw[i],
                    t,
                    dominant_population(sw),
                )
            &&& forall|j: int|
                0 <= j < i && #[trigger] eligible(sw[j], t, used) ==> scores_higher(
                    sw[i],
                    sw[j],
                    t,
                    dominant_population(sw),
                )
        },
    decreases n,
{
    if n > 0 {
        lemma_best_swatch_is_best(sw, t, used, n - 1);
        let d = dominant_population(sw);
        let b = best_swatch(sw, t, used, n - 1);
        let c = n - 1;
        if eligible(sw[c], t, used) && (b is None || scores_higher(sw[c], sw[b.unwrap()], t, d)) {
            if b is Some {
                let i = b.unwrap();
                lemma_hsl_bounds(sw[c].color());
                lemma_hsl_bounds(sw[i].color());
                assert forall|j: int| 0 <= j < n && #[trigger] eligible(sw[j], t, used) implies !scores_higher(
                    sw[j],
                    sw[c],
                    t,
                    d,
                ) by {
                    if j < c && scores_higher(sw[j], sw[c], t, d) {
                        lemma_hsl_bounds(sw[j].color());
                        lemma_fraction_order(
                            score_num(sw[j], t, d),
                            score_den(sw[j]),
                            score_num(sw[c], t, d),
                            score_den(sw[c]),
                            score_num(sw[i], t, d),
                            score_den(sw[i]),
                        );
                    }
                }
                assert forall|j: int| 0 <= j < c && #[trigger] eligible(sw[j], t, used) implies scores_higher(
                    sw[c],
                    sw[j],
                    t,
                    d,
                ) by {
                    lemma_hsl_bounds(sw[j].color());
                    lemma_fraction_order(
                        score_num(sw[c], t, d),
                        score_den(sw[c]),
                        score_num(sw[i], t, d),
                        score_den(sw[i]),
                        score_num(sw[j], t, d),
                        score_den(sw[j]),
                    );
                }
            }
        }
    }
}

proof fn lemma_selected_len(sw: Seq<Swatch>, targets: Seq<Target>, i: int, used: Seq<Rgb>)
    requires
        0 <= i <= targets.len(),
    ensures
        selected_from(sw, targets, i, used).len() == targets.len() - i,
    decreases targets.len() - i,
{
    if i < targets.len() {
        let pick = claimed_swatch(sw, normalized(targets[i]), used);
        lemma_selected_len(sw, targets, i + 1, record(used, pick));
    }
}

proof fn lemma_selected_exclusive(sw: Seq<Swatch>, targets: Seq<Target>, i: int, used: Seq<Rgb>)
    requires
        0 <= i <= targets.len(),
    ensures
        forall|a: int|
            0 <= a < selected_from(sw, targets, i, used).len() && #[trigger] selected_from(
                sw,
                targets,
                i,
                used,
            )[a] is Some ==> !used.contains(selected_from(sw, targets, i, used)[a].unwrap().color()),
        forall|a: int, b: int|
            0 <= a < b < selected_from(sw, targets, i, used).len() && #[trigger] selected_from(
                sw,
                targets,
                i,
                used,
            )[a] is Some && #[trigger] selected_from(sw, targets, i, used)[b] is Some
                ==> selected_from(sw, targets, i, used)[a].unwrap().color() != selected_from(
                sw,
                targets,
                i,
                used,
            )[b].unwrap().color(),
    decreases targets.len() - i,
{
    if i < targets.len() {
        let t = normalized(targets[i]);
        let pick = claimed_swatch(sw, t, used);
        let used2 = record(used, pick);
        let rest = selected_from(sw, targets, i + 1, used2);
        let all = selected_from(sw, targets, i, used);
        lemma_selected_exclusive(sw, targets, i + 1, used2);
        lemma_best_swatch_eligible(sw, t, used, sw.len() as int);
        assert(all == seq![pick] + rest);
        assert forall|a: int| 0 <= a < all.len() && #[trigger] all[a] is Some implies !used.contains(
            all[a].unwrap().color(),
        ) by {
            if a > 0 {
                assert(all[a] == rest[a - 1]);
                if pick is Some {
                    assert(used2 == used.push(pick.unwrap().color()));
                    if used.contains(all[a].unwrap().color()) {
                        let k = choose|k: int| 0 <= k < used.len() && used[k] == all[a].unwrap().color();
                        assert(used2[k] == used[k]);
                    }
                }
            }
        }
        assert forall|a: int, b: int|
            0 <= a < b < all.len() && #[trigger] all[a] is Some && #[trigger] all[b] is Some
            implies all[a].unwrap().color() != all[b].unwrap().color() by {
            if a == 0 {
                assert(all[b] == rest[b - 1]);
                assert(used2 == used.push(pick.unwrap().color()));
                assert(used2[used.len() as int] == pick.unwrap().color());
            } else {
                assert(all[a] == rest[a - 1]);
                assert(all[b] == rest[b - 1]);
            }
        }
    }
}

/// No colour is claimed by two targets of one palette, whatever the order of
/// the targets and however their bands overlap.
pub proof fn lemma_target_exclusivity(sw: Seq<Swatch>, targets: Seq<Target>, a: int, b: int)
    requires
        0 <= a < b < targets.len(),
        selected_swatches(sw, targets)[a] is Some,
        selected_swatches(sw, targets)[b] is Some,
    ensures
        selected_swatches(sw, targets)[a].unwrap().color() != selected_swatches(
            sw,
            targets,
        )[b].unwrap().color(),
{
    lemma_selected_len(sw, targets, 0, seq![]);
    lemma_selected_exclusive(sw, targets, 0, seq![]);
}

// ---------------------------------------------------------------------------
// Executable scoring

/// The largest population among the swatches, or one when there is none.
fn dominant_population_of(swatches: &Vec<Swatch>) -> (r: u32)
    ensures
        r == dominant_population(swatches@),
{
    let mut max: u32 = 0;
    let mut i: usize = 0;
    while i < swatches.len()
        invariant
            0 <= i <= swatches.len(),
            max == max_population(swatches@.take(i as int)),
        decreases swatches.len() - i,
    {
        proof {
            assert(swatches@.take(i + 1).drop_last() =~= swatches@.take(i as int));
        }
        let p = swatches[i].population();
        if p > max {
            max = p;
        }
        i += 1;
    }
    assert(swatches@.take(swatches.len() as int) =~= swatches@);
    if max == 0 {
        1
    } else {
        max
    }
}

fn abs_diff(a: u64, b: u64) -> (r: u64)
    ensures
        r == abs(a - b),
{
    if a >= b {
        a - b
    } else {
        b - a
    }
}

/// A swatch's score as the pair `(score_num, score_den)`.
fn generate_score(swatch: Swatch, dominant: u32, target: Target) -> (r: (u128, u128))
    requires
        target.wf(),
        swatch.pop() <= dominant,
    ensures
        r.0 == score_num(swatch, target, dominant as nat),
        r.1 == score_den(swatch),
        r.0 < 0x4_0000_0000_0000_0000_0000_0000,
        1 <= r.1 <= 255,
{
    let hsl = swatch.hsl();
    proof {
        lemma_hsl_bounds(swatch.color());
    }
    let sn = hsl.saturation.num as u64;
    let sd = hsl.saturation.den as u64;
    let ln = hsl.lightness.num as u64;
    assert(sd <= 255);
    assert(target.saturation_targets.1 as u64 * sd <= 100 * sd) by (nonlinear_arith)
        requires
            target.saturation_targets.1 <= 100,
    ;
    let saturation_distance = abs_diff(100 * sn, target.saturation_targets.1 as u64 * sd);
    let lightness_distance = abs_diff(100 * ln, 510 * target.lightness_targets.1 as u64);
    let saturation_closeness = 100 * sd - saturation_distance;
    let lightness_closeness = 51000 - lightness_distance;
    let ws = target.weights.0 as u128;
    let wl = target.weights.1 as u128;
    let wp = target.weights.2 as u128;
    let d = dominant as u128;
    let p = swatch.population as u128;
    let sc = saturation_closeness as u128;
    let lc = lightness_closeness as u128;
    let sd = sd as u128;
    assert(ws * 510 * d <= 0xffff_ffff * 510 * 0xffff_ffff) by (nonlinear_arith)
        requires
            ws <= 0xffff_ffff,
            d <= 0xffff_ffff,
    ;
    assert(wl * sd * d <= 0xffff_ffff * 255 * 0xffff_ffff) by (nonlinear_arith)
        requires
            wl <= 0xffff_ffff,
            sd <= 255,
            d <= 0xffff_ffff,
    ;
    assert(wl * sd <= 0xffff_ffff * 255) by (nonlinear_arith)
        requires
            wl <= 0xffff_ffff,
            sd <= 255,
    ;
    assert(ws * 510 * d * sc <= 0xffff_ffff * 510 * 0xffff_ffff * 25500) by (nonlinear_arith)
        requires
            ws <= 0xffff_ffff,
            d <= 0xffff_ffff,
            sc <= 25500,
    ;
    assert(wl * sd * d * lc <= 0xffff_ffff * 255 * 0xffff_ffff * 51000) by (nonlinear_arith)
        requires
            wl <= 0xffff_ffff,
            sd <= 255,
            d <= 0xffff_ffff,
            lc <= 51000,
    ;
    assert(wp * p <= 0xffff_ffff * 0xffff_ffff) by (nonlinear_arith)
        requires
            wp <= 0xffff_ffff,
            p <= 0xffff_ffff,
    ;
    assert(wp * p * 51000 <= 0xffff_ffff * 0xffff_ffff * 51000) by (nonlinear_arith)
        requires
            wp * p <= 0xffff_ffff * 0xffff_ffff,
    ;
    assert(wp * p * 51000 * sd <= 0xffff_ffff * 0xffff_ffff * 51000 * 255) by (nonlinear_arith)
        requires
            wp <= 0xffff_ffff,
            p <= 0xffff_ffff,
            sd <= 255,
    ;
    let saturation_score = ws * 510 * d * sc;
    let lightness_score = wl * sd * d * lc;
    let population_score = wp * p * 51000 * sd;
    (saturation_score + lightness_score + population_score, sd)
}

/// Whether `used` holds the colour.
fn contains_color(used: &Vec<Rgb>, c: Rgb) -> (r: bool)
    ensures
        r == used@.contains(c),
{
    let mut i: usize = 0;
    while i < used.len()
        invariant
            0 <= i <= used.len(),
            forall|j: int| 0 <= j < i ==> used@[j] != c,
        decreases used.len() - i,
    {
        let u = used[i];
        if u.0 == c.0 && u.1 == c.1 && u.2 == c.2 {
            return true;
        }
        i += 1;
    }
    false
}

fn in_band_exec(x: Ratio, band: (u32, u32, u32)) -> (r: bool)
    ensures
        r == in_band(x, band),
{
    let num = 100 * x.num as u64;
    assert(band.0 as u64 * x.den as u64 <= 0xffff_ffff * 0xffff_ffff) by (nonlinear_arith);
    assert(band.2 as u64 * x.den as u64 <= 0xffff_ffff * 0xffff_ffff) by (nonlinear_arith);
    band.0 as u64 * x.den as u64 <= num && num <= band.2 as u64 * x.den as u64
}

/// Whether the swatch may be scored for the target.
fn should_be_scored_for_target(swatch: Swatch, target: Target, used_colors: &Vec<Rgb>) -> (r: bool)
    ensures
        r == eligible(swatch, target, used_colors@),
{
    let hsl = swatch.hsl();
    in_band_exec(hsl.saturation, target.saturation_targets) && in_band_exec(
        hsl.lightness,
        target.lightness_targets,
    ) && !contains_color(used_colors, swatch.rgb())
}

proof fn lemma_max_population(sw: Seq<Swatch>, i: int)
    requires
        0 <= i < sw.len(),
    ensures
        sw[i].pop() <= max_population(sw),
    decreases sw.len(),
{
    if i < sw.len() - 1 {
        lemma_max_population(sw.drop_last(), i);
    }
}

/// The eligible swatch of highest score, the earliest one on a tie.
fn get_max_scored_swatch_for_target(
    swatches: &Vec<Swatch>,
    target: Target,
    used_colors: &Vec<Rgb>,
) -> (r: Option<usize>)
    requires
        target.wf(),
    ensures
        r matches Some(i) ==> i < swatches.len(),
        r == (match best_swatch(swatches@, target, used_colors@, swatches.len() as int) {
            Some(i) => Some(i as usize),
            None => None,
        }),
{
    let dominant = dominant_population_of(swatches);
    let mut best: Option<usize> = None;
    let mut best_score: (u128, u128) = (0, 1);
    let mut i: usize = 0;
    while i < swatches.len()
        invariant
            0 <= i <= swatches.len(),
            target.wf(),
            dominant == dominant_population(swatches@),
            best == (match best_swatch(swatches@, target, used_colors@, i as int) {
                Some(j) => Some(j as usize),
                None => None,
            }),
            best matches Some(j) ==> j < i && best_score.0 == score_num(
                swatches@[j as int],
                target,
                dominant as nat,
            ) && best_score.1 == score_den(swatches@[j as int]) && best_score.0
                < 0x4_0000_0000_0000_0000_0000_0000 && 1 <= best_score.1 <= 255,
        decreases swatches.len() - i,
    {
        proof {
            lemma_best_swatch_eligible(swatches@, target, used_colors@, i as int);
        }
        let swatch = swatches[i];
        if should_be_scored_for_target(swatch, target, used_colors) {
            proof {
                lemma_max_population(swatches@, i as int);
            }
            let score = generate_score(swatch, dominant, target);
            let higher = match best {
                None => true,
                Some(_) => {
                    assert(score.0 * best_score.1 < 0x4_0000_0000_0000_0000_0000_0000 * 256)
                        by (nonlinear_arith)
                        requires
                            score.0 < 0x4_0000_0000_0000_0000_0000_0000,
                            best_score.1 <= 255,
                    ;
                    assert(best_score.0 * score.1 < 0x4_0000_0000_0000_0000_0000_0000 * 256)
                        by (nonlinear_arith)
                        requires
                            best_score.0 < 0x4_0000_0000_0000_0000_0000_0000,
                            score.1 <= 255,
                    ;
                    score.0 * best_score.1 > best_score.0 * score.1
                },
            };
            if higher {
                best = Some(i);
                best_score = score;
            }
        }
        i += 1;
    }
    best
}

/// The swatch that the target claims; its colour is then recorded as taken.
fn generate_scored_target(swatches: &Vec<Swatch>, target: Target, used_colors: &mut Vec<Rgb>) -> (r:
    Option<Swatch>)
    requires
        target.wf(),
    ensures
        r == claimed_swatch(swatches@, target, old(used_colors)@),
        final(used_colors)@ == record(old(used_colors)@, r),
{
    proof {
        lemma_best_swatch_eligible(swatches@, target, used_colors@, swatches.len() as int);
    }
    if target.is_exclusive() {
        if let Some(i) = get_max_scored_swatch_for_target(swatches, target, used_colors) {
            let swatch = swatches[i];
            used_colors.push(swatch.rgb());
            return Some(swatch);
        }
    }
    None
}

/// Fills each target, in order, with its best swatch.
pub fn select_swatches(swatches: &Vec<Swatch>, targets: &mut Vec<Target>) -> (r: Vec<Option<Swatch>>)
    requires
        forall|i: int| 0 <= i < old(targets).len() ==> (#[trigger] old(targets)@[i]).wf(),
    ensures
        final(targets)@ == old(targets)@.map_values(|t: Target| normalized(t)),
        r@ == selected_swatches(swatches@, old(targets)@),
        r.len() == old(targets).len(),
{
    let ghost all = targets@;
    let mut used_colors: Vec<Rgb> = Vec::new();
    let mut selected: Vec<Option<Swatch>> = Vec::new();
    let mut i: usize = 0;
    while i < targets.len()
        invariant
            0 <= i <= targets.len() == all.len(),
            forall|j: int| 0 <= j < all.len() ==> (#[trigger] all[j]).wf(),
            forall|j: int| 0 <= j < i ==> targets@[j] == normalized(all[j]),
            forall|j: int| i <= j < all.len() ==> targets@[j] == all[j],
            selected_swatches(swatches@, all) == selected@ + selected_from(
                swatches@,
                all,
                i as int,
                used_colors@,
            ),
        decreases all.len() - i,
    {
        let mut target = targets[i];
        target.normalize_weights();
        targets.set(i, target);
        let ghost used_before = used_colors@;
        let pick = generate_scored_target(swatches, target, &mut used_colors);
        proof {
            let rest = selected_from(swatches@, all, i + 1, used_colors@);
            assert(selected_from(swatches@, all, i as int, used_before) == seq![pick] + rest);
            assert(selected@.push(pick) + rest =~= selected@ + (seq![pick] + rest));
        }
        selected.push(pick);
        i += 1;
    }
    proof {
        lemma_selected_len(swatches@, all, 0, seq![]);
        assert(targets@ =~= all.map_values(|t: Target| normalized(t)));
        assert(selected@ + selected_from(swatches@, all, i as int, used_colors@) =~= selected@);
    }
    selected
}

} // verus!
