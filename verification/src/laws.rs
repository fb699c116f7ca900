//! Global laws of the radiosity bake, stated and proved over the solver's
//! specification model.

use vstd::prelude::*;
use crate::fixed::{SCALE, BRIGHT_LIMIT, tdiv};
use crate::radiosity::{
    Face, Brightness, bake_spec, rounds, round_spec, seed_face, settle_face, gather,
    add_variants, term_rgb, transfer_amount, variant, pair_dist, pairs_ok, faces_wf, face_wf,
    same_geometry, cos_receiver, cos_source, clamp0, albedo, bright_wf, child_face, mid2,
    subdiv_pair, lemma_round_geometry, lemma_pairs_ok_transport,
    lemma_variant_preserves_state, lemma_zero_source, MIN_PAIR_DIST,
};

verus! {

/// Every face carries no light at all, settled or pending.
pub open spec fn all_dark(s: Seq<Face>) -> bool {
    forall|i: int|
        0 <= i < s.len() ==> (#[trigger] s[i]).brightness == (Brightness { r: 0i64, g: 0i64, b: 0i64 })
            && s[i].last_iteration_brightness == (Brightness { r: 0i64, g: 0i64, b: 0i64 })
}

/// A receiver gathers nothing from a snapshot whose faces all have zero
/// pending light.
proof fn lemma_gather_dark(recv: Face, s: Seq<Face>, m: int)
    requires
        m <= s.len(),
        forall|j: int|
            0 <= j < s.len() ==> (#[trigger] s[j]).last_iteration_brightness == (Brightness {
                r: 0i64,
                g: 0i64,
                b: 0i64,
            }),
        forall|j: int, k: int|
            0 <= j < s.len() && 0 <= k < 4 && s[j].id != recv.id ==> #[trigger] pair_dist(
                recv,
                variant(s[j], k),
            ) > 0,
    ensures
        gather((0int, 0int, 0int), recv, s, m) == (0int, 0int, 0int),
    decreases m,
{
    if m > 0 {
        lemma_gather_dark(recv, s, m - 1);
        if s[m - 1].id != recv.id {
            lemma_zero_source((0int, 0int, 0int), recv, s[m - 1]);
        }
    }
}

/// One round leaves an all-dark face list all dark.
proof fn lemma_round_dark(s: Seq<Face>)
    requires
        all_dark(s),
        pairs_ok(s),
    ensures
        all_dark(round_spec(s)),
{
    lemma_round_geometry(s);
    assert forall|i: int| 0 <= i < round_spec(s).len() implies (#[trigger] round_spec(s)[i]).brightness
        == (Brightness { r: 0i64, g: 0i64, b: 0i64 }) && round_spec(s)[i].last_iteration_brightness
        == (Brightness { r: 0i64, g: 0i64, b: 0i64 }) by {
        let recv = settle_face(s[i]);
        assert forall|j: int, k: int|
            0 <= j < s.len() && 0 <= k < 4 && s[j].id != recv.id implies #[trigger] pair_dist(
            recv,
            variant(s[j], k),
        ) > 0 by {
            assert(recv.id == s[i].id);
            assert(pair_dist(s[i], variant(s[j], k)) >= MIN_PAIR_DIST);
            assert(pair_dist(recv, variant(s[j], k)) == pair_dist(s[i], variant(s[j], k)));
        }
        lemma_gather_dark(recv, s, s.len() as int);
    }
}

/// Zero-emission fixpoint: when every face starts with zero emission, the
/// bake leaves every face at zero brightness, settled and pending, no
/// matter how many rounds run.
pub proof fn lemma_zero_emission_fixpoint(s: Seq<Face>, n: int)
    requires
        pairs_ok(s),
        forall|i: int|
            0 <= i < s.len() ==> (#[trigger] s[i]).brightness == (Brightness {
                r: 0i64,
                g: 0i64,
                b: 0i64,
            }),
    ensures
        all_dark(bake_spec(s, n)),
    decreases n,
{
    let seeded = s.map_values(|f: Face| seed_face(f));
    assert(all_dark(seeded)) by {
        assert forall|i: int| 0 <= i < seeded.len() implies (#[trigger] seeded[i]).brightness
            == (Brightness { r: 0i64, g: 0i64, b: 0i64 })
            && seeded[i].last_iteration_brightness == (Brightness { r: 0i64, g: 0i64, b: 0i64 })
            by {
            assert(seeded[i] == seed_face(s[i]));
        }
    }
    assert(pairs_ok(seeded)) by {
        assert forall|i: int| 0 <= i < s.len() implies same_geometry(
            #[trigger] seeded[i],
            s[i],
        ) by {
            assert(seeded[i] == seed_face(s[i]));
        }
        lemma_pairs_ok_transport(s, seeded);
    }
    lemma_rounds_dark(seeded, n);
    let done = rounds(seeded, n);
    assert forall|i: int| 0 <= i < bake_spec(s, n).len() implies (#[trigger] bake_spec(s, n)[i]).brightness
        == (Brightness { r: 0i64, g: 0i64, b: 0i64 }) && bake_spec(s, n)[i].last_iteration_brightness
        == (Brightness { r: 0i64, g: 0i64, b: 0i64 }) by {
        assert(bake_spec(s, n)[i] == settle_face(done[i]));
    }
}

/// Any number of rounds leaves an all-dark face list all dark.
proof fn lemma_rounds_dark(s: Seq<Face>, n: int)
    requires
        all_dark(s),
        pairs_ok(s),
    ensures
        all_dark(rounds(s, n)),
        pairs_ok(rounds(s, n)),
        rounds(s, n).len() == s.len(),
        forall|i: int| 0 <= i < s.len() ==> same_geometry(#[trigger] rounds(s, n)[i], s[i]),
    decreases n,
{
    if n > 0 {
        lemma_rounds_dark(s, n - 1);
        let prev = rounds(s, n - 1);
        lemma_round_dark(prev);
        lemma_round_geometry(prev);
        assert forall|i: int| 0 <= i < s.len() implies same_geometry(
            #[trigger] rounds(s, n)[i],
            s[i],
        ) by {
            assert(same_geometry(round_spec(prev)[i], prev[i]));
        }
        lemma_pairs_ok_transport(s, rounds(s, n));
    }
}

/// A transfer term with either orientation factor clamped to zero moves no
/// energy.
proof fn lemma_transfer_zero_factor(a: int, p: int, f1: int, f2: int, d: int)
    requires
        a >= 0,
        p >= 0,
        f1 >= 0,
        f2 >= 0,
        f1 == 0 || f2 == 0,
        d > 0,
    ensures
        transfer_amount(a, p, f1, f2, d) == 0,
{
    let t1 = a * p / (SCALE as int);
    vstd::arithmetic::mul::lemma_mul_nonnegative(a, p);
    vstd::arithmetic::div_mod::lemma_div_pos_is_pos(a * p, SCALE as int);
    if f1 == 0 {
        vstd::arithmetic::mul::lemma_mul_basics(t1);
        assert(t1 * f1 == 0);
        vstd::arithmetic::div_mod::lemma_basic_div(0, d);
        vstd::arithmetic::mul::lemma_mul_basics(f2);
        assert((0int) * f2 == 0);
        vstd::arithmetic::div_mod::lemma_basic_div(0, 64);
    } else {
        let u1 = t1 * f1;
        vstd::arithmetic::mul::lemma_mul_nonnegative(t1, f1);
        vstd::arithmetic::div_mod::lemma_div_pos_is_pos(u1, d);
        let u2 = u1 / d;
        vstd::arithmetic::mul::lemma_mul_basics(u2);
        assert(u2 * f2 == 0);
        vstd::arithmetic::div_mod::lemma_basic_div(0, d);
        vstd::arithmetic::div_mod::lemma_basic_div(0, 64);
    }
}

/// Back-facing exclusion, per source variant: a pair whose orientation
/// factors clamp to zero exchanges no light on any channel.
pub proof fn lemma_back_facing_no_term(recv: Face, var: Face)
    requires
        cos_receiver(recv, var) <= 0 || cos_source(recv, var) <= 0,
        pair_dist(recv, var) > 0,
        bright_wf(var.last_iteration_brightness),
    ensures
        term_rgb(recv, var) == (0int, 0int, 0int),
{
    let f1 = clamp0(cos_receiver(recv, var));
    let f2 = clamp0(cos_source(recv, var));
    let d = pair_dist(recv, var);
    lemma_transfer_zero_factor(
        albedo(recv.color.r),
        var.last_iteration_brightness.r as int,
        f1,
        f2,
        d,
    );
    lemma_transfer_zero_factor(
        albedo(recv.color.g),
        var.last_iteration_brightness.g as int,
        f1,
        f2,
        d,
    );
    lemma_transfer_zero_factor(
        albedo(recv.color.b),
        var.last_iteration_brightness.b as int,
        f1,
        f2,
        d,
    );
}

/// Back-facing exclusion: a source whose every variant is turned away from
/// the receiver (or from which the receiver is turned away) contributes
/// nothing to the receiver's pending light in a round.  The hypothesis
/// speaks of all four variants because a mirrored source can face the
/// receiver even when the source itself does not.
pub proof fn lemma_back_facing_exclusion(p: (int, int, int), recv: Face, src: Face)
    requires
        0 <= p.0 <= BRIGHT_LIMIT,
        0 <= p.1 <= BRIGHT_LIMIT,
        0 <= p.2 <= BRIGHT_LIMIT,
        bright_wf(src.last_iteration_brightness),
        forall|k: int| 0 <= k < 4 ==> #[trigger] pair_dist(recv, variant(src, k)) > 0,
        forall|k: int|
            0 <= k < 4 ==> cos_receiver(recv, #[trigger] variant(src, k)) <= 0 || cos_source(
                recv,
                variant(src, k),
            ) <= 0,
    ensures
        add_variants(p, recv, src) == p,
{
    assert forall|k: int| 0 <= k < 4 implies #[trigger] term_rgb(recv, variant(src, k)) == (
    0int,
    0int,
    0int,
    ) by {
        lemma_variant_preserves_state(src, k);
        lemma_back_facing_no_term(recv, variant(src, k));
    }
    assert(add_variants(p, recv, src) == p);
}

/// Determinism: the bake is the pure function `bake_spec` of the face list
/// and the round count, so two runs over equal inputs settle bit-identical
/// brightness.
pub proof fn lemma_determinism(a: Seq<Face>, b: Seq<Face>, n: int)
    requires
        a == b,
    ensures
        bake_spec(a, n) == bake_spec(b, n),
{
}


/// The smaller of two integers.
pub open spec fn min2(a: int, b: int) -> int {
    if a <= b {
        a
    } else {
        b
    }
}

/// The larger of two integers.
pub open spec fn max2(a: int, b: int) -> int {
    if a >= b {
        a
    } else {
        b
    }
}

/// The lowest texture u coordinate among a face's four corners.
pub open spec fn uv_min_u(f: Face) -> int {
    min2(
        min2(f.texture_position[0].x as int, f.texture_position[1].x as int),
        min2(f.texture_position[2].x as int, f.texture_position[3].x as int),
    )
}

/// The highest texture u coordinate among a face's four corners.
pub open spec fn uv_max_u(f: Face) -> int {
    max2(
        max2(f.texture_position[0].x as int, f.texture_position[1].x as int),
        max2(f.texture_position[2].x as int, f.texture_position[3].x as int),
    )
}

/// The lowest texture v coordinate among a face's four corners.
pub open spec fn uv_min_v(f: Face) -> int {
    min2(
        min2(f.texture_position[0].y as int, f.texture_position[1].y as int),
        min2(f.texture_position[2].y as int, f.texture_position[3].y as int),
    )
}

/// The highest texture v coordinate among a face's four corners.
pub open spec fn uv_max_v(f: Face) -> int {
    max2(
        max2(f.texture_position[0].y as int, f.texture_position[1].y as int),
        max2(f.texture_position[2].y as int, f.texture_position[3].y as int),
    )
}

/// `(u, v)` lies within the bounding box of the face's texture placement.
pub open spec fn uv_covers(f: Face, u: int, v: int) -> bool {
    uv_min_u(f) <= u <= uv_max_u(f) && uv_min_v(f) <= v <= uv_max_v(f)
}

/// The face's texture placement is an axis-aligned rectangle with
/// non-negative coordinates: corners 0 and 3 span the diagonal, corners 1
/// and 2 complete it.
pub open spec fn uv_rect(f: Face) -> bool {
    &&& 0 <= f.texture_position[0].x <= f.texture_position[3].x
    &&& 0 <= f.texture_position[0].y <= f.texture_position[3].y
    &&& f.texture_position[1].x == f.texture_position[3].x
    &&& f.texture_position[1].y == f.texture_position[0].y
    &&& f.texture_position[2].x == f.texture_position[0].x
    &&& f.texture_position[2].y == f.texture_position[3].y
}

/// The midpoint of an ordered non-negative pair lies between the two.
proof fn lemma_mid_between(a: int, b: int)
    requires
        0 <= a <= b,
    ensures
        a <= tdiv(a + b, 2) <= b,
        tdiv(a + a, 2) == a,
        tdiv(b + b, 2) == b,
{
    vstd::arithmetic::div_mod::lemma_div_is_ordered(a + a, a + b, 2);
    vstd::arithmetic::div_mod::lemma_div_is_ordered(a + b, b + b, 2);
    assert(a + a == a * 2 && b + b == b * 2) by (nonlinear_arith);
    vstd::arithmetic::div_mod::lemma_div_by_multiple(a, 2);
    vstd::arithmetic::div_mod::lemma_div_by_multiple(b, 2);
}

/// Subdivision UV coverage: for a face with a rectangular texture
/// placement, the four children's placements tile the parent's exactly:
/// a texture point lies in the parent's placement box precisely when it
/// lies in some child's placement box.
pub proof fn lemma_subdivision_uv_coverage(f: Face, u: int, v: int)
    requires
        uv_rect(f),
    ensures
        uv_covers(f, u, v) <==> exists|c: int|
            0 <= c < 4 && uv_covers(#[trigger] child_face(f, c), u, v),
{
    let u0 = f.texture_position[0].x as int;
    let u1 = f.texture_position[3].x as int;
    let v0 = f.texture_position[0].y as int;
    let v1 = f.texture_position[3].y as int;
    let mu = tdiv(u0 + u1, 2);
    let mv = tdiv(v0 + v1, 2);
    lemma_mid_between(u0, u1);
    lemma_mid_between(v0, v1);
    assert(child_face(f, 0).texture_position[0] == mid2(f, subdiv_pair(0, 0)));
    lemma_child_box(f, 0, u0, mu, v0, mv);
    lemma_child_box(f, 1, mu, u1, v0, mv);
    lemma_child_box(f, 2, u0, mu, mv, v1);
    lemma_child_box(f, 3, mu, u1, mv, v1);
    if uv_covers(f, u, v) {
        if u <= mu && v <= mv {
            assert(uv_covers(child_face(f, 0), u, v));
        } else if v <= mv {
            assert(uv_covers(child_face(f, 1), u, v));
        } else if u <= mu {
            assert(uv_covers(child_face(f, 2), u, v));
        } else {
            assert(uv_covers(child_face(f, 3), u, v));
        }
    }
}

/// The texture bounding box of each subdivision child of a rectangular
/// parent: exactly one quadrant of the parent's box.
proof fn lemma_child_box(f: Face, c: int, lo_u: int, hi_u: int, lo_v: int, hi_v: int)
    requires
        uv_rect(f),
        0 <= c < 4,
        ({
            let u0 = f.texture_position[0].x as int;
            let u1 = f.texture_position[3].x as int;
            let v0 = f.texture_position[0].y as int;
            let v1 = f.texture_position[3].y as int;
            let mu = tdiv(u0 + u1, 2);
            let mv = tdiv(v0 + v1, 2);
            if c == 0 {
                lo_u == u0 && hi_u == mu && lo_v == v0 && hi_v == mv
            } else if c == 1 {
                lo_u == mu && hi_u == u1 && lo_v == v0 && hi_v == mv
            } else if c == 2 {
                lo_u == u0 && hi_u == mu && lo_v == mv && hi_v == v1
            } else {
                lo_u == mu && hi_u == u1 && lo_v == mv && hi_v == v1
            }
        }),
    ensures
        uv_min_u(child_face(f, c)) == lo_u,
        uv_max_u(child_face(f, c)) == hi_u,
        uv_min_v(child_face(f, c)) == lo_v,
        uv_max_v(child_face(f, c)) == hi_v,
{
    let u0 = f.texture_position[0].x as int;
    let u1 = f.texture_position[3].x as int;
    let v0 = f.texture_position[0].y as int;
    let v1 = f.texture_position[3].y as int;
    lemma_mid_between(u0, u1);
    lemma_mid_between(v0, v1);
    let ch = child_face(f, c);
    assert(ch.texture_position[0] == mid2(f, subdiv_pair(c, 0)));
    assert(ch.texture_position[1] == mid2(f, subdiv_pair(c, 1)));
    assert(ch.texture_position[2] == mid2(f, subdiv_pair(c, 2)));
    assert(ch.texture_position[3] == mid2(f, subdiv_pair(c, 3)));
}



/// A transfer term over admissible inputs is non-negative.
proof fn lemma_transfer_nonneg(a: int, p: int, f1: int, f2: int, d: int)
    requires
        a >= 0,
        p >= 0,
        f1 >= 0,
        f2 >= 0,
        d > 0,
    ensures
        0 <= transfer_amount(a, p, f1, f2, d) <= BRIGHT_LIMIT,
{
    vstd::arithmetic::mul::lemma_mul_nonnegative(a, p);
    vstd::arithmetic::div_mod::lemma_div_pos_is_pos(a * p, SCALE as int);
    let t1 = a * p / (SCALE as int);
    vstd::arithmetic::mul::lemma_mul_nonnegative(t1, f1);
    vstd::arithmetic::div_mod::lemma_div_pos_is_pos(t1 * f1, d);
    let u2 = t1 * f1 / d;
    vstd::arithmetic::mul::lemma_mul_nonnegative(u2, f2);
    vstd::arithmetic::div_mod::lemma_div_pos_is_pos(u2 * f2, d);
    let u4 = u2 * f2 / d;
    vstd::arithmetic::div_mod::lemma_div_pos_is_pos(u4, 64);
}

/// The damping condition on one (receiver, source variant) pair among `n`
/// faces: the pair's orientation product is small against its squared
/// distance, so that one transfer hands over at most a `1 / (8 n)` share
/// of the source's pending light.
pub open spec fn damped_pair(recv: Face, var: Face, n: int) -> bool {
    8 * n * (clamp0(cos_receiver(recv, var)) * clamp0(cos_source(recv, var))) <= 64 * (
    pair_dist(recv, var) * pair_dist(recv, var))
}

/// The damping condition over a whole face list: every ordered pair of
/// distinct-id faces is damped, for each of the source's four variants.
pub open spec fn damped(s: Seq<Face>) -> bool {
    forall|i: int, j: int, k: int|
        0 <= i < s.len() && 0 <= j < s.len() && 0 <= k < 4 && s[i].id != s[j].id
            ==> #[trigger] damped_pair(s[i], variant(s[j], k), s.len() as int)
}

/// The damping condition only reads geometry, so it carries over between
/// face lists that agree on geometry pointwise.
pub proof fn lemma_damped_transport(s1: Seq<Face>, s2: Seq<Face>)
    requires
        s1.len() == s2.len(),
        forall|i: int| 0 <= i < s1.len() ==> same_geometry(#[trigger] s2[i], s1[i]),
        damped(s1),
    ensures
        damped(s2),
{
    assert forall|i: int, j: int, k: int|
        0 <= i < s2.len() && 0 <= j < s2.len() && 0 <= k < 4 && s2[i].id != s2[j].id implies #[trigger] damped_pair(
        s2[i],
        variant(s2[j], k),
        s2.len() as int,
    ) by {
        assert(same_geometry(s2[i], s1[i]));
        assert(same_geometry(s2[j], s1[j]));
        assert(damped_pair(s1[i], variant(s1[j], k), s1.len() as int));
        assert(variant(s2[j], k).corners == variant(s1[j], k).corners);
        assert(variant(s2[j], k).normal == variant(s1[j], k).normal);
        assert(cos_receiver(s2[i], variant(s2[j], k)) == cos_receiver(
            s1[i],
            variant(s1[j], k),
        ));
        assert(cos_source(s2[i], variant(s2[j], k)) == cos_source(s1[i], variant(s1[j], k)));
        assert(pair_dist(s2[i], variant(s2[j], k)) == pair_dist(s1[i], variant(s1[j], k)));
    }
}

/// A damped pair's transfer term hands over at most a `1 / (8 n)` share
/// of the source's pending light.
proof fn lemma_term_damped(a: int, p: int, f1: int, f2: int, d: int, n: int)
    requires
        0 <= a <= SCALE,
        0 <= p,
        0 <= f1,
        0 <= f2,
        d >= 1,
        n >= 1,
        8 * n * (f1 * f2) <= 64 * (d * d),
    ensures
        8 * n * transfer_amount(a, p, f1, f2, d) <= p,
{
    let t1 = a * p / (SCALE as int);
    vstd::arithmetic::mul::lemma_mul_nonnegative(a, p);
    vstd::arithmetic::div_mod::lemma_div_pos_is_pos(a * p, SCALE as int);
    vstd::arithmetic::div_mod::lemma_fundamental_div_mod(a * p, SCALE as int);
    vstd::arithmetic::div_mod::lemma_mod_bound(a * p, SCALE as int);
    let u1 = t1 * f1;
    vstd::arithmetic::mul::lemma_mul_nonnegative(t1, f1);
    let u2 = u1 / d;
    vstd::arithmetic::div_mod::lemma_div_pos_is_pos(u1, d);
    vstd::arithmetic::div_mod::lemma_fundamental_div_mod(u1, d);
    vstd::arithmetic::div_mod::lemma_mod_bound(u1, d);
    let u3 = u2 * f2;
    vstd::arithmetic::mul::lemma_mul_nonnegative(u2, f2);
    let u4 = u3 / d;
    vstd::arithmetic::div_mod::lemma_div_pos_is_pos(u3, d);
    vstd::arithmetic::div_mod::lemma_fundamental_div_mod(u3, d);
    vstd::arithmetic::div_mod::lemma_mod_bound(u3, d);
    let q = u4 / 64;
    vstd::arithmetic::div_mod::lemma_div_pos_is_pos(u4, 64);
    vstd::arithmetic::div_mod::lemma_fundamental_div_mod(u4, 64);
    vstd::arithmetic::div_mod::lemma_mod_bound(u4, 64);
    assert((SCALE as int) * t1 <= a * p);
    assert(d * u2 <= u1);
    assert(d * u4 <= u3);
    assert(64 * q <= u4);
    assert(transfer_amount(a, p, f1, f2, d) <= q && transfer_amount(a, p, f1, f2, d) >= 0)
        by {
        lemma_transfer_nonneg(a, p, f1, f2, d);
    }
    assert(8 * n * q <= p) by (nonlinear_arith)
        requires
            0 <= a <= SCALE,
            SCALE == 65536,
            0 <= p,
            0 <= f1,
            0 <= f2,
            d >= 1,
            n >= 1,
            0 <= t1,
            0 <= u2,
            0 <= u4,
            0 <= q,
            (SCALE as int) * t1 <= a * p,
            d * u2 <= t1 * f1,
            d * u4 <= u2 * f2,
            64 * q <= u4,
            8 * n * (f1 * f2) <= 64 * (d * d),
    ;
    vstd::arithmetic::mul::lemma_mul_inequality(
        transfer_amount(a, p, f1, f2, d),
        q,
        8 * n,
    );
    assert(transfer_amount(a, p, f1, f2, d) * (8 * n) <= q * (8 * n));
    assert(8 * n * transfer_amount(a, p, f1, f2, d) <= 8 * n * q) by (nonlinear_arith)
        requires
            transfer_amount(a, p, f1, f2, d) * (8 * n) <= q * (8 * n),
    ;
}



/// The largest channel of a brightness triple.
pub open spec fn bright_peak(b: Brightness) -> int {
    max2(b.r as int, max2(b.g as int, b.b as int))
}

/// The largest pending channel value over a face list (zero when empty).
pub open spec fn pend_peak(s: Seq<Face>) -> int
    decreases s.len(),
{
    if s.len() == 0 {
        0
    } else {
        max2(pend_peak(s.drop_last()), bright_peak(s.last().last_iteration_brightness))
    }
}

/// The largest settled channel value over a face list (zero when empty).
pub open spec fn acc_peak(s: Seq<Face>) -> int
    decreases s.len(),
{
    if s.len() == 0 {
        0
    } else {
        max2(acc_peak(s.drop_last()), bright_peak(s.last().brightness))
    }
}

/// Each face's channels lie below the respective peak, and the peaks are
/// monotone in face count.
proof fn lemma_peak_pointwise(s: Seq<Face>, i: int)
    requires
        0 <= i < s.len(),
    ensures
        bright_peak(s[i].last_iteration_brightness) <= pend_peak(s),
        bright_peak(s[i].brightness) <= acc_peak(s),
    decreases s.len(),
{
    if i + 1 < s.len() {
        lemma_peak_pointwise(s.drop_last(), i);
        assert(s.drop_last()[i] == s[i]);
    } else {
        assert(s.last() == s[i]);
    }
}

/// A pointwise bound on doubled pending channels bounds the doubled peak.
proof fn lemma_pend_peak_le(s: Seq<Face>, b: int)
    requires
        b >= 0,
        forall|i: int|
            0 <= i < s.len() ==> 2 * bright_peak(
                (#[trigger] s[i]).last_iteration_brightness,
            ) <= b,
    ensures
        2 * pend_peak(s) <= b,
    decreases s.len(),
{
    if s.len() > 0 {
        assert forall|i: int| 0 <= i < s.drop_last().len() implies 2 * bright_peak(
            (#[trigger] s.drop_last()[i]).last_iteration_brightness,
        ) <= b by {
            assert(s.drop_last()[i] == s[i]);
        }
        lemma_pend_peak_le(s.drop_last(), b);
        assert(s.last() == s[s.len() - 1]);
    }
}

/// A pointwise bound on settled channels bounds the settled peak.
proof fn lemma_acc_peak_le(s: Seq<Face>, b: int)
    requires
        b >= 0,
        forall|i: int| 0 <= i < s.len() ==> bright_peak((#[trigger] s[i]).brightness) <= b,
    ensures
        acc_peak(s) <= b,
    decreases s.len(),
{
    if s.len() > 0 {
        assert forall|i: int| 0 <= i < s.drop_last().len() implies bright_peak(
            (#[trigger] s.drop_last()[i]).brightness,
        ) <= b by {
            assert(s.drop_last()[i] == s[i]);
        }
        lemma_acc_peak_le(s.drop_last(), b);
        assert(s.last() == s[s.len() - 1]);
    }
}

/// Gathering over a damped snapshot: the receiver picks up at most an
/// `m / (2 n)` share of the snapshot's peak pending value after `m`
/// sources, and the result stays an admissible brightness.
proof fn lemma_gather_damped(recv: Face, snap: Seq<Face>, m: int, cap: int)
    requires
        1 <= snap.len(),
        0 <= m <= snap.len(),
        cap >= 0,
        forall|j: int|
            0 <= j < snap.len() ==> bright_wf(
                (#[trigger] snap[j]).last_iteration_brightness,
            ) && bright_peak(snap[j].last_iteration_brightness) <= cap,
        forall|j: int, k: int|
            0 <= j < snap.len() && 0 <= k < 4 && snap[j].id != recv.id ==> #[trigger] pair_dist(
                recv,
                variant(snap[j], k),
            ) >= MIN_PAIR_DIST,
        forall|j: int, k: int|
            0 <= j < snap.len() && 0 <= k < 4 && snap[j].id != recv.id
                ==> #[trigger] damped_pair(recv, variant(snap[j], k), snap.len() as int),
    ensures
        ({
            let g = gather((0int, 0int, 0int), recv, snap, m);
            &&& 0 <= g.0 <= BRIGHT_LIMIT
            &&& 0 <= g.1 <= BRIGHT_LIMIT
            &&& 0 <= g.2 <= BRIGHT_LIMIT
            &&& 2 * snap.len() * g.0 <= m * cap
            &&& 2 * snap.len() * g.1 <= m * cap
            &&& 2 * snap.len() * g.2 <= m * cap
        }),
    decreases m,
{
    let n = snap.len() as int;
    if m == 0 {
        assert(2 * n * 0 == 0) by (nonlinear_arith);
    } else {
        lemma_gather_damped(recv, snap, m - 1, cap);
        let prev = gather((0int, 0int, 0int), recv, snap, m - 1);
        let src = snap[m - 1];
        if src.id == recv.id {
            assert(gather((0int, 0int, 0int), recv, snap, m) == prev);
            assert(2 * n * prev.0 <= m * cap && 2 * n * prev.1 <= m * cap && 2 * n * prev.2
                <= m * cap) by (nonlinear_arith)
                requires
                    2 * n * prev.0 <= (m - 1) * cap,
                    2 * n * prev.1 <= (m - 1) * cap,
                    2 * n * prev.2 <= (m - 1) * cap,
                    cap >= 0,
            ;
        } else {
            let g = add_variants(prev, recv, src);
            assert forall|k: int| 0 <= k < 4 implies {
                let t = #[trigger] term_rgb(recv, variant(src, k));
                &&& 0 <= t.0 && 8 * n * t.0 <= cap
                &&& 0 <= t.1 && 8 * n * t.1 <= cap
                &&& 0 <= t.2 && 8 * n * t.2 <= cap
            } by {
                lemma_variant_preserves_state(src, k);
                let var = variant(src, k);
                let f1 = clamp0(cos_receiver(recv, var));
                let f2 = clamp0(cos_source(recv, var));
                let d = pair_dist(recv, var);
                assert(damped_pair(recv, variant(snap[m - 1], k), snap.len() as int));
                assert(pair_dist(recv, variant(snap[m - 1], k)) >= MIN_PAIR_DIST);
                assert(8 * n * (f1 * f2) <= 64 * (d * d));
                assert(albedo(recv.color.r) <= SCALE && albedo(recv.color.g) <= SCALE
                    && albedo(recv.color.b) <= SCALE);
                lemma_term_damped(
                    albedo(recv.color.r),
                    var.last_iteration_brightness.r as int,
                    f1,
                    f2,
                    d,
                    n,
                );
                lemma_term_damped(
                    albedo(recv.color.g),
                    var.last_iteration_brightness.g as int,
                    f1,
                    f2,
                    d,
                    n,
                );
                lemma_term_damped(
                    albedo(recv.color.b),
                    var.last_iteration_brightness.b as int,
                    f1,
                    f2,
                    d,
                    n,
                );
                lemma_transfer_nonneg(
                    albedo(recv.color.r),
                    var.last_iteration_brightness.r as int,
                    f1,
                    f2,
                    d,
                );
                lemma_transfer_nonneg(
                    albedo(recv.color.g),
                    var.last_iteration_brightness.g as int,
                    f1,
                    f2,
                    d,
                );
                lemma_transfer_nonneg(
                    albedo(recv.color.b),
                    var.last_iteration_brightness.b as int,
                    f1,
                    f2,
                    d,
                );
                assert(bright_peak(var.last_iteration_brightness) <= cap);
            }
            let t0 = term_rgb(recv, variant(src, 0));
            let t1 = term_rgb(recv, variant(src, 1));
            let t2 = term_rgb(recv, variant(src, 2));
            let t3 = term_rgb(recv, variant(src, 3));
            assert(g.0 <= prev.0 + t0.0 + t1.0 + t2.0 + t3.0 && g.0 >= 0 && g.0
                <= BRIGHT_LIMIT);
            assert(g.1 <= prev.1 + t0.1 + t1.1 + t2.1 + t3.1 && g.1 >= 0 && g.1
                <= BRIGHT_LIMIT);
            assert(g.2 <= prev.2 + t0.2 + t1.2 + t2.2 + t3.2 && g.2 >= 0 && g.2
                <= BRIGHT_LIMIT);
            assert(2 * n * g.0 <= m * cap && 2 * n * g.1 <= m * cap && 2 * n * g.2 <= m * cap)
                by (nonlinear_arith)
                requires
                    n >= 1,
                    cap >= 0,
                    2 * n * prev.0 <= (m - 1) * cap,
                    2 * n * prev.1 <= (m - 1) * cap,
                    2 * n * prev.2 <= (m - 1) * cap,
                    8 * n * t0.0 <= cap && 8 * n * t1.0 <= cap && 8 * n * t2.0 <= cap && 8 * n
                        * t3.0 <= cap,
                    8 * n * t0.1 <= cap && 8 * n * t1.1 <= cap && 8 * n * t2.1 <= cap && 8 * n
                        * t3.1 <= cap,
                    8 * n * t0.2 <= cap && 8 * n * t1.2 <= cap && 8 * n * t2.2 <= cap && 8 * n
                        * t3.2 <= cap,
                    0 <= t0.0 && 0 <= t1.0 && 0 <= t2.0 && 0 <= t3.0,
                    0 <= t0.1 && 0 <= t1.1 && 0 <= t2.1 && 0 <= t3.1,
                    0 <= t0.2 && 0 <= t1.2 && 0 <= t2.2 && 0 <= t3.2,
                    g.0 <= prev.0 + t0.0 + t1.0 + t2.0 + t3.0,
                    g.1 <= prev.1 + t0.1 + t1.1 + t2.1 + t3.1,
                    g.2 <= prev.2 + t0.2 + t1.2 + t2.2 + t3.2,
                    0 <= g.0 && 0 <= g.1 && 0 <= g.2,
            ;
        }
    }
}



/// One round under the damping condition: pending peaks at most halve,
/// settled values grow by at most the pending value, and every face stays
/// well-formed.
proof fn lemma_round_damped(s: Seq<Face>)
    requires
        faces_wf(s),
        pairs_ok(s),
        damped(s),
        s.len() >= 1,
    ensures
        faces_wf(round_spec(s)),
        2 * pend_peak(round_spec(s)) <= pend_peak(s),
        acc_peak(round_spec(s)) <= acc_peak(s) + pend_peak(s),
{
    let n = s.len() as int;
    let r = round_spec(s);
    assert forall|i: int| 0 <= i < r.len() implies face_wf(#[trigger] r[i]) && 2 * bright_peak(
        r[i].last_iteration_brightness,
    ) <= pend_peak(s) && bright_peak(r[i].brightness) <= acc_peak(s) + pend_peak(s) by {
        let recv = settle_face(s[i]);
        assert(face_wf(s[i]));
        lemma_peak_pointwise(s, i);
        assert forall|j: int| 0 <= j < s.len() implies bright_wf(
            (#[trigger] s[j]).last_iteration_brightness,
        ) && bright_peak(s[j].last_iteration_brightness) <= pend_peak(s) by {
            assert(face_wf(s[j]));
            lemma_peak_pointwise(s, j);
        }
        assert forall|j: int, k: int|
            0 <= j < s.len() && 0 <= k < 4 && s[j].id != recv.id implies #[trigger] pair_dist(
            recv,
            variant(s[j], k),
        ) >= MIN_PAIR_DIST by {
            assert(recv.id == s[i].id);
            assert(pair_dist(s[i], variant(s[j], k)) >= MIN_PAIR_DIST);
            assert(pair_dist(recv, variant(s[j], k)) == pair_dist(s[i], variant(s[j], k)));
        }
        assert forall|j: int, k: int|
            0 <= j < s.len() && 0 <= k < 4 && s[j].id != recv.id implies #[trigger] damped_pair(
            recv,
            variant(s[j], k),
            s.len() as int,
        ) by {
            assert(recv.id == s[i].id);
            assert(damped_pair(s[i], variant(s[j], k), s.len() as int));
            assert(cos_receiver(recv, variant(s[j], k)) == cos_receiver(
                s[i],
                variant(s[j], k),
            ));
            assert(cos_source(recv, variant(s[j], k)) == cos_source(s[i], variant(s[j], k)));
            assert(pair_dist(recv, variant(s[j], k)) == pair_dist(s[i], variant(s[j], k)));
        }
        assert(pend_peak(s) >= 0) by {
            lemma_peak_pointwise(s, 0);
            assert(face_wf(s[0]));
        }
        lemma_gather_damped(recv, s, n, pend_peak(s));
        let g = gather((0int, 0int, 0int), recv, s, n);
        assert(2 * g.0 <= pend_peak(s) && 2 * g.1 <= pend_peak(s) && 2 * g.2 <= pend_peak(s))
            by (nonlinear_arith)
            requires
                n >= 1,
                2 * n * g.0 <= n * pend_peak(s),
                2 * n * g.1 <= n * pend_peak(s),
                2 * n * g.2 <= n * pend_peak(s),
        ;
        assert(r[i] == Face {
            last_iteration_brightness: Brightness { r: g.0 as i64, g: g.1 as i64, b: g.2 as i64 },
            ..settle_face(s[i])
        });
    }
    lemma_pend_peak_le(r, pend_peak(s));
    assert(acc_peak(s) + pend_peak(s) >= 0) by {
        lemma_peak_pointwise(s, 0);
        assert(face_wf(s[0]));
    }
    lemma_acc_peak_le(r, acc_peak(s) + pend_peak(s));
}

/// Any number of rounds keeps the energy budget: the settled peak plus
/// twice the pending peak never grows.
proof fn lemma_rounds_damped(s: Seq<Face>, k: int)
    requires
        faces_wf(s),
        pairs_ok(s),
        damped(s),
        s.len() >= 1,
    ensures
        faces_wf(rounds(s, k)),
        pairs_ok(rounds(s, k)),
        damped(rounds(s, k)),
        rounds(s, k).len() == s.len(),
        acc_peak(rounds(s, k)) + 2 * pend_peak(rounds(s, k)) <= acc_peak(s) + 2 * pend_peak(
            s,
        ),
    decreases k,
{
    if k > 0 {
        lemma_rounds_damped(s, k - 1);
        let prev = rounds(s, k - 1);
        lemma_round_damped(prev);
        lemma_round_geometry(prev);
        lemma_pairs_ok_transport(prev, rounds(s, k));
        lemma_damped_transport(prev, rounds(s, k));
    }
}

/// Energy conservation bound: under the damping condition (every pair's
/// transfer coefficient stays below a `1 / (8 n)` share, the fixed-point
/// counterpart of an area normalization chosen so each round passes on at
/// most half the in-flight energy), every channel of every face's settled
/// brightness after a bake of any length stays within three times the
/// brightest initial emission.
pub proof fn lemma_energy_conservation(s: Seq<Face>, k: int)
    requires
        faces_wf(s),
        pairs_ok(s),
        damped(s),
        s.len() >= 1,
    ensures
        forall|i: int|
            0 <= i < bake_spec(s, k).len() ==> bright_peak(
                (#[trigger] bake_spec(s, k)[i]).brightness,
            ) <= 3 * acc_peak(s),
{
    let seeded = s.map_values(|f: Face| seed_face(f));
    assert(seeded.len() == s.len());
    assert forall|i: int| 0 <= i < s.len() implies same_geometry(#[trigger] seeded[i], s[i])
        && face_wf(seeded[i]) by {
        assert(seeded[i] == seed_face(s[i]));
        assert(face_wf(s[i]));
    }
    lemma_pairs_ok_transport(s, seeded);
    lemma_damped_transport(s, seeded);
    assert(acc_peak(s) >= 0) by {
        lemma_peak_pointwise(s, 0);
        assert(face_wf(s[0]));
    }
    assert(pend_peak(seeded) <= acc_peak(s)) by {
        assert forall|i: int| 0 <= i < seeded.len() implies 2 * bright_peak(
            (#[trigger] seeded[i]).last_iteration_brightness,
        ) <= 2 * acc_peak(s) by {
            assert(seeded[i] == seed_face(s[i]));
            lemma_peak_pointwise(s, i);
        }
        lemma_pend_peak_le(seeded, 2 * acc_peak(s));
    }
    assert(acc_peak(seeded) <= acc_peak(s)) by {
        assert forall|i: int| 0 <= i < seeded.len() implies bright_peak(
            (#[trigger] seeded[i]).brightness,
        ) <= acc_peak(s) by {
            assert(seeded[i] == seed_face(s[i]));
            lemma_peak_pointwise(s, i);
        }
        lemma_acc_peak_le(seeded, acc_peak(s));
    }
    lemma_rounds_damped(seeded, k);
    let done = rounds(seeded, k);
    assert forall|i: int| 0 <= i < bake_spec(s, k).len() implies bright_peak(
        (#[trigger] bake_spec(s, k)[i]).brightness,
    ) <= 3 * acc_peak(s) by {
        assert(bake_spec(s, k)[i] == settle_face(done[i]));
        lemma_peak_pointwise(done, i);
        assert(face_wf(done[i]));
    }
}



/// Gathering over a well-formed snapshot yields an admissible brightness.
proof fn lemma_gather_wf(recv: Face, snap: Seq<Face>, m: int)
    requires
        0 <= m <= snap.len(),
        forall|j: int|
            0 <= j < snap.len() ==> bright_wf((#[trigger] snap[j]).last_iteration_brightness),
        forall|j: int, k: int|
            0 <= j < snap.len() && 0 <= k < 4 && snap[j].id != recv.id ==> #[trigger] pair_dist(
                recv,
                variant(snap[j], k),
            ) >= MIN_PAIR_DIST,
    ensures
        ({
            let g = gather((0int, 0int, 0int), recv, snap, m);
            0 <= g.0 <= BRIGHT_LIMIT && 0 <= g.1 <= BRIGHT_LIMIT && 0 <= g.2 <= BRIGHT_LIMIT
        }),
    decreases m,
{
    if m > 0 {
        lemma_gather_wf(recv, snap, m - 1);
        let src = snap[m - 1];
        if src.id != recv.id {
            assert forall|k: int| 0 <= k < 4 implies {
                let t = #[trigger] term_rgb(recv, variant(src, k));
                0 <= t.0 <= BRIGHT_LIMIT && 0 <= t.1 <= BRIGHT_LIMIT && 0 <= t.2
                    <= BRIGHT_LIMIT
            } by {
                lemma_variant_preserves_state(src, k);
                let var = variant(src, k);
                let f1 = clamp0(cos_receiver(recv, var));
                let f2 = clamp0(cos_source(recv, var));
                let d = pair_dist(recv, var);
                assert(pair_dist(recv, variant(snap[m - 1], k)) >= MIN_PAIR_DIST);
                lemma_transfer_nonneg(
                    albedo(recv.color.r),
                    var.last_iteration_brightness.r as int,
                    f1,
                    f2,
                    d,
                );
                lemma_transfer_nonneg(
                    albedo(recv.color.g),
                    var.last_iteration_brightness.g as int,
                    f1,
                    f2,
                    d,
                );
                lemma_transfer_nonneg(
                    albedo(recv.color.b),
                    var.last_iteration_brightness.b as int,
                    f1,
                    f2,
                    d,
                );
            }
        }
    }
}

/// One round preserves well-formedness, and the settle phase only adds to
/// each face's settled brightness.
proof fn lemma_round_grows(s: Seq<Face>)
    requires
        faces_wf(s),
        pairs_ok(s),
    ensures
        faces_wf(round_spec(s)),
        forall|i: int|
            0 <= i < s.len() ==> {
                let b0 = (#[trigger] s[i]).brightness;
                let b1 = round_spec(s)[i].brightness;
                b1.r >= b0.r && b1.g >= b0.g && b1.b >= b0.b
            },
{
    assert forall|i: int| 0 <= i < round_spec(s).len() implies face_wf(#[trigger] round_spec(s)[i])
        && round_spec(s)[i].brightness.r >= s[i].brightness.r && round_spec(s)[i].brightness.g
        >= s[i].brightness.g && round_spec(s)[i].brightness.b >= s[i].brightness.b by {
        assert(face_wf(s[i]));
        let recv = settle_face(s[i]);
        assert forall|j: int| 0 <= j < s.len() implies bright_wf(
            (#[trigger] s[j]).last_iteration_brightness,
        ) by {
            assert(face_wf(s[j]));
        }
        assert forall|j: int, k: int|
            0 <= j < s.len() && 0 <= k < 4 && s[j].id != recv.id implies #[trigger] pair_dist(
            recv,
            variant(s[j], k),
        ) >= MIN_PAIR_DIST by {
            assert(recv.id == s[i].id);
            assert(pair_dist(s[i], variant(s[j], k)) >= MIN_PAIR_DIST);
            assert(pair_dist(recv, variant(s[j], k)) == pair_dist(s[i], variant(s[j], k)));
        }
        lemma_gather_wf(recv, s, s.len() as int);
        let g = gather((0int, 0int, 0int), recv, s, s.len() as int);
        assert(round_spec(s)[i] == Face {
            last_iteration_brightness: Brightness { r: g.0 as i64, g: g.1 as i64, b: g.2 as i64 },
            ..settle_face(s[i])
        });
    }
}

/// Accumulated brightness only grows within a bake: a face's settled
/// channel after any round is at least its value after the round before,
/// and the bake's final settle adds further still.  Stated over the rounds
/// of a seeded face list, which is how the solver runs them.
pub proof fn lemma_accumulated_monotone(s: Seq<Face>, k: int)
    requires
        faces_wf(s),
        pairs_ok(s),
        k >= 0,
    ensures
        faces_wf(rounds(s, k)),
        pairs_ok(rounds(s, k)),
        rounds(s, k).len() == s.len(),
        forall|i: int| 0 <= i < s.len() ==> same_geometry(#[trigger] rounds(s, k)[i], s[i]),
        forall|i: int|
            0 <= i < s.len() ==> {
                let b0 = (#[trigger] rounds(s, k)[i]).brightness;
                let b1 = round_spec(rounds(s, k))[i].brightness;
                b1.r >= b0.r && b1.g >= b0.g && b1.b >= b0.b
            },
    decreases k,
{
    if k == 0 {
        lemma_round_grows(s);
    } else {
        lemma_accumulated_monotone(s, k - 1);
        let prev = rounds(s, k - 1);
        lemma_round_geometry(prev);
        assert forall|i: int| 0 <= i < s.len() implies same_geometry(
            #[trigger] rounds(s, k)[i],
            s[i],
        ) by {
            assert(same_geometry(round_spec(prev)[i], prev[i]));
        }
        lemma_pairs_ok_transport(s, rounds(s, k));
        lemma_round_grows(prev);
        lemma_round_grows(rounds(s, k));
    }
}


} // verus!
