//! Collision system: projectile-to-creature hits, damage, and removal of the
//! defeated.
//!
//! Every projectile scans the creatures in order and resolves against the
//! first one in its lane within collision range. On a hit the projectile is
//! destroyed, the creature loses exactly the projectile's damage, and a
//! creature whose health drops to zero or below is destroyed at once. Each
//! projectile therefore contributes to at most one collision resolution, and
//! later projectiles see the creatures as the earlier ones left them.

use crate::bullet::{lemma_bullet_stats_bounds, spec_bullet_stats, stats, Bullet};
use crate::zombie::{Zombie, ZOMBIE_RADIUS};
use crate::POS_LIMIT;
use vstd::prelude::*;

verus! {

/// Squared Euclidean distance between two positions (two-dimensional; depth
/// is ignored).
pub open spec fn spec_dist2(ax: int, ay: int, bx: int, by: int) -> int {
    (ax - bx) * (ax - bx) + (ay - by) * (ay - by)
}

/// Whether a projectile and a creature collide: the same lane (an exact
/// integer match), and squared distance at most the squared sum of their
/// collision radii.
pub open spec fn spec_hits(b: Bullet, z: Zombie) -> bool {
    let rr = spec_bullet_stats(b.kind).radius + ZOMBIE_RADIUS;
    b.row == z.row && spec_dist2(b.x as int, b.y as int, z.x as int, z.y as int) <= rr * rr
}

/// Index of the first creature that `b` hits, scanning from index `k` on.
pub open spec fn spec_first_hit_from(b: Bullet, zombies: Seq<Zombie>, k: int) -> Option<int>
    decreases zombies.len() - k,
{
    if k < 0 || k >= zombies.len() {
        None
    } else if spec_hits(b, zombies[k]) {
        Some(k)
    } else {
        spec_first_hit_from(b, zombies, k + 1)
    }
}

/// Index of the first creature that `b` hits, if any.
pub open spec fn spec_first_hit(b: Bullet, zombies: Seq<Zombie>) -> Option<int> {
    spec_first_hit_from(b, zombies, 0)
}

/// The first hit, when found, is a real hit and the earliest one.
pub proof fn lemma_first_hit_from_props(b: Bullet, zombies: Seq<Zombie>, k: int)
    requires
        0 <= k,
    ensures
        spec_first_hit_from(b, zombies, k) matches Some(j) ==> k <= j < zombies.len()
            && spec_hits(b, zombies[j]) && (forall|m: int|
            k <= m < j ==> !spec_hits(b, #[trigger] zombies[m])),
        spec_first_hit_from(b, zombies, k) is None ==> forall|m: int|
            k <= m < zombies.len() ==> !spec_hits(b, #[trigger] zombies[m]),
    decreases zombies.len() - k,
{
    if k < zombies.len() && !spec_hits(b, zombies[k]) {
        lemma_first_hit_from_props(b, zombies, k + 1);
    }
}

/// The creatures after `b` hits the one at index `j`: exactly the
/// projectile's damage is subtracted, and the creature is removed when its
/// health drops to zero or below.
pub open spec fn spec_apply_hit(b: Bullet, zombies: Seq<Zombie>, j: int) -> Seq<Zombie> {
    let d = spec_bullet_stats(b.kind).damage;
    if zombies[j].hp <= d {
        zombies.remove(j)
    } else {
        zombies.update(j, Zombie { hp: (zombies[j].hp - d) as i32, ..zombies[j] })
    }
}

/// One projectile's resolution: whether it survives, and the creatures after
/// it. A projectile that finds no creature in range survives unchanged.
pub open spec fn spec_resolve_bullet(b: Bullet, zombies: Seq<Zombie>) -> (bool, Seq<Zombie>) {
    match spec_first_hit(b, zombies) {
        None => (true, zombies),
        Some(j) => (false, spec_apply_hit(b, zombies, j)),
    }
}

/// The whole collision resolution: projectiles in order, each against the
/// creatures as the previous ones left them. Returns the surviving
/// projectiles (in order) and the remaining creatures.
pub open spec fn spec_resolve(bullets: Seq<Bullet>, zombies: Seq<Zombie>) -> (
    Seq<Bullet>,
    Seq<Zombie>,
)
    decreases bullets.len(),
{
    if bullets.len() == 0 {
        (bullets, zombies)
    } else {
        let r0 = spec_resolve_bullet(bullets[0], zombies);
        let rr = spec_resolve(bullets.drop_first(), r0.1);
        ((if r0.0 {
            seq![bullets[0]] + rr.0
        } else {
            rr.0
        }), rr.1)
    }
}

/// One resolved collision changes one creature's health by exactly the
/// projectile's damage — a strict decrease, since every kind deals at least
/// one point — and destroys the creature exactly when the damage reaches its
/// remaining health (that is, when cumulative damage reaches its starting
/// health). No other creature changes.
pub proof fn lemma_hit_applies_exact_damage(b: Bullet, zombies: Seq<Zombie>, j: int)
    requires
        0 <= j < zombies.len(),
    ensures
        spec_bullet_stats(b.kind).damage >= 1,
        zombies[j].hp > spec_bullet_stats(b.kind).damage ==> {
            let after = spec_apply_hit(b, zombies, j);
            &&& after.len() == zombies.len()
            &&& after[j].hp == zombies[j].hp - spec_bullet_stats(b.kind).damage
            &&& after[j].hp < zombies[j].hp
            &&& after[j] == (Zombie {
                hp: (zombies[j].hp - spec_bullet_stats(b.kind).damage) as i32,
                ..zombies[j]
            })
            &&& forall|m: int| 0 <= m < zombies.len() && m != j ==> #[trigger] after[m] == zombies[m]
        },
        zombies[j].hp <= spec_bullet_stats(b.kind).damage ==> spec_apply_hit(b, zombies, j)
            == zombies.remove(j),
{
    lemma_bullet_stats_bounds(b.kind);
}

/// A projectile contributes to at most one collision resolution: it either
/// survives and leaves every creature untouched, or it is destroyed and
/// exactly one creature — the first in its lane within range — takes its
/// damage.
pub proof fn lemma_projectile_hits_at_most_once(b: Bullet, zombies: Seq<Zombie>)
    ensures
        spec_resolve_bullet(b, zombies).0 ==> spec_resolve_bullet(b, zombies).1 == zombies,
        !spec_resolve_bullet(b, zombies).0 ==> exists|j: int|
            0 <= j < zombies.len() && spec_hits(b, #[trigger] zombies[j])
                && spec_resolve_bullet(b, zombies).1 == spec_apply_hit(b, zombies, j),
{
    lemma_first_hit_from_props(b, zombies, 0);
    match spec_first_hit(b, zombies) {
        Some(j) => {
            assert(0 <= j < zombies.len() && spec_hits(b, zombies[j]) && spec_resolve_bullet(
                b,
                zombies,
            ).1 == spec_apply_hit(b, zombies, j));
        },
        None => {},
    }
}

/// Whether `z2` is the same creature as `z` after some damage: identity, lane
/// and position agree, and its health is positive but no larger.
pub open spec fn spec_weakened(z2: Zombie, z: Zombie) -> bool {
    z2.id == z.id && z2.row == z.row && z2.x == z.x && z2.y == z.y && 1 <= z2.hp <= z.hp
}

/// Whether `z2` is a possibly damaged copy of some creature of `before`.
pub open spec fn spec_from_some(z2: Zombie, before: Seq<Zombie>) -> bool {
    exists|m: int| 0 <= m < before.len() && spec_weakened(z2, #[trigger] before[m])
}

/// Whether every creature of `after` is a (possibly damaged) creature of
/// `before`: none is created, and damage only lowers health.
pub open spec fn spec_zombies_from(after: Seq<Zombie>, before: Seq<Zombie>) -> bool {
    &&& after.len() <= before.len()
    &&& forall|k: int| 0 <= k < after.len() ==> spec_from_some(#[trigger] after[k], before)
}

/// The relation above is reflexive on creatures with positive health.
pub proof fn lemma_zombies_from_refl(zombies: Seq<Zombie>)
    requires
        forall|k: int| 0 <= k < zombies.len() ==> (#[trigger] zombies[k]).hp >= 1,
    ensures
        spec_zombies_from(zombies, zombies),
{
    assert forall|k: int| 0 <= k < zombies.len() implies spec_from_some(
        #[trigger] zombies[k],
        zombies,
    ) by {
        assert(spec_weakened(zombies[k], zombies[k]));
    }
}

/// The relation above is transitive.
pub proof fn lemma_zombies_from_trans(a: Seq<Zombie>, b: Seq<Zombie>, c: Seq<Zombie>)
    requires
        spec_zombies_from(a, b),
        spec_zombies_from(b, c),
    ensures
        spec_zombies_from(a, c),
{
    assert forall|k: int| 0 <= k < a.len() implies spec_from_some(#[trigger] a[k], c) by {
        assert(spec_from_some(a[k], b));
        let m1 = choose|m1: int| 0 <= m1 < b.len() && spec_weakened(a[k], #[trigger] b[m1]);
        assert(0 <= m1 < b.len() && spec_weakened(a[k], b[m1]));
        assert(spec_from_some(b[m1], c));
        let m2 = choose|m2: int| 0 <= m2 < c.len() && spec_weakened(b[m1], #[trigger] c[m2]);
        assert(0 <= m2 < c.len() && spec_weakened(a[k], c[m2]));
    }
}

/// Every creature left by a resolution is a (possibly damaged) creature of
/// the input, and none is created.
pub proof fn lemma_resolve_zombies_from(bullets: Seq<Bullet>, zombies: Seq<Zombie>)
    requires
        forall|k: int| 0 <= k < zombies.len() ==> (#[trigger] zombies[k]).hp >= 1,
    ensures
        spec_zombies_from(spec_resolve(bullets, zombies).1, zombies),
    decreases bullets.len(),
{
    if bullets.len() > 0 {
        let b = bullets[0];
        let zs1 = spec_resolve_bullet(b, zombies).1;
        lemma_first_hit_from_props(b, zombies, 0);
        match spec_first_hit(b, zombies) {
            Some(j) => {
                lemma_hit_applies_exact_damage(b, zombies, j);
            },
            None => {},
        }
        assert forall|k: int| 0 <= k < zs1.len() implies spec_from_some(
            #[trigger] zs1[k],
            zombies,
        ) by {
            match spec_first_hit(b, zombies) {
                Some(j) => {
                    let d = spec_bullet_stats(b.kind).damage;
                    if zombies[j].hp <= d {
                        if k < j {
                            assert(zs1[k] == zombies[k] && spec_weakened(zs1[k], zombies[k]));
                        } else {
                            assert(zs1[k] == zombies[k + 1] && spec_weakened(
                                zs1[k],
                                zombies[k + 1],
                            ));
                        }
                    } else {
                        if k == j {
                            assert(spec_weakened(zs1[k], zombies[j]));
                        } else {
                            assert(zs1[k] == zombies[k] && spec_weakened(zs1[k], zombies[k]));
                        }
                    }
                },
                None => {
                    assert(zs1[k] == zombies[k] && spec_weakened(zs1[k], zombies[k]));
                },
            }
        }
        assert(zs1.len() <= zombies.len());
        assert(spec_zombies_from(zs1, zombies));
        assert forall|k: int| 0 <= k < zs1.len() implies (#[trigger] zs1[k]).hp >= 1 by {
            assert(spec_from_some(zs1[k], zombies));
            let m = choose|m: int|
                0 <= m < zombies.len() && spec_weakened(zs1[k], #[trigger] zombies[m]);
            assert(spec_weakened(zs1[k], zombies[m]));
        }
        lemma_resolve_zombies_from(bullets.drop_first(), zs1);
        assert(spec_resolve(bullets, zombies).1 == spec_resolve(bullets.drop_first(), zs1).1);
        lemma_zombies_from_trans(spec_resolve(bullets, zombies).1, zs1, zombies);
    } else {
        assert(spec_resolve(bullets, zombies).1 == zombies);
        lemma_zombies_from_refl(zombies);
    }
}

/// Every projectile that survives a resolution is one of the input
/// projectiles, and none is created.
pub proof fn lemma_resolve_bullets_from(bullets: Seq<Bullet>, zombies: Seq<Zombie>)
    ensures
        spec_resolve(bullets, zombies).0.len() <= bullets.len(),
        forall|k: int|
            0 <= k < spec_resolve(bullets, zombies).0.len() ==> exists|m: int|
                0 <= m < bullets.len() && #[trigger] spec_resolve(bullets, zombies).0[k]
                    == bullets[m],
    decreases bullets.len(),
{
    if bullets.len() > 0 {
        let b = bullets[0];
        let zs1 = spec_resolve_bullet(b, zombies).1;
        let tail = bullets.drop_first();
        lemma_resolve_bullets_from(tail, zs1);
        let kept = spec_resolve(bullets, zombies).0;
        let kept_tail = spec_resolve(tail, zs1).0;
        assert forall|k: int| 0 <= k < kept.len() implies exists|m: int|
            0 <= m < bullets.len() && #[trigger] kept[k] == bullets[m] by {
            if spec_resolve_bullet(b, zombies).0 {
                if k == 0 {
                    assert(kept[k] == bullets[0]);
                } else {
                    assert(kept[k] == kept_tail[k - 1]);
                    let m = choose|m: int| 0 <= m < tail.len() && kept_tail[k - 1] == tail[m];
                    assert(kept[k] == bullets[m + 1]);
                }
            } else {
                assert(kept[k] == kept_tail[k]);
                let m = choose|m: int| 0 <= m < tail.len() && kept_tail[k] == tail[m];
                assert(kept[k] == bullets[m + 1]);
            }
        }
    }
}

/// The collision system for one frame: resolve every projectile in order
/// against the creatures in order.
pub fn bullet_hit_zombie(bullets: &mut Vec<Bullet>, zombies: &mut Vec<Zombie>)
    requires
        forall|i: int|
            0 <= i < old(bullets)@.len() ==> -POS_LIMIT <= #[trigger] old(bullets)@[i].x
                <= POS_LIMIT && -POS_LIMIT <= old(bullets)@[i].y <= POS_LIMIT,
        forall|i: int|
            0 <= i < old(zombies)@.len() ==> -POS_LIMIT <= #[trigger] old(zombies)@[i].x
                <= POS_LIMIT && -POS_LIMIT <= old(zombies)@[i].y <= POS_LIMIT && old(
                zombies,
            )@[i].hp >= 1,
    ensures
        final(bullets)@ == spec_resolve(old(bullets)@, old(zombies)@).0,
        final(zombies)@ == spec_resolve(old(bullets)@, old(zombies)@).1,
{
    let ghost bs0 = bullets@;
    let ghost zs0 = zombies@;
    let mut kept: Vec<Bullet> = Vec::new();
    proof {
        assert(bs0.skip(0) =~= bs0);
        assert(Seq::<Bullet>::empty() + spec_resolve(bs0, zs0).0 =~= spec_resolve(bs0, zs0).0);
    }
    let mut i: usize = 0;
    while i < bullets.len()
        invariant
            bullets@ == bs0,
            i <= bs0.len(),
            forall|k: int|
                0 <= k < bs0.len() ==> -POS_LIMIT <= #[trigger] bs0[k].x <= POS_LIMIT && -POS_LIMIT
                    <= bs0[k].y <= POS_LIMIT,
            forall|k: int|
                0 <= k < zombies@.len() ==> -POS_LIMIT <= #[trigger] zombies@[k].x <= POS_LIMIT
                    && -POS_LIMIT <= zombies@[k].y <= POS_LIMIT && zombies@[k].hp >= 1,
            spec_resolve(bs0, zs0).0 == kept@ + spec_resolve(bs0.skip(i as int), zombies@).0,
            spec_resolve(bs0, zs0).1 == spec_resolve(bs0.skip(i as int), zombies@).1,
        decreases bs0.len() - i,
    {
        let b = bullets[i];
        let ghost zs = zombies@;
        proof {
            assert(bs0.skip(i as int)[0] == bs0[i as int]);
            assert(bs0.skip(i as int).drop_first() =~= bs0.skip(i + 1));
        }
        let s = stats(b.kind);
        let rr = s.radius + ZOMBIE_RADIUS;
        let n = zombies.len();
        let mut j: usize = 0;
        let mut found: bool = false;
        while j < n && !found
            invariant
                zombies@ == zs,
                n == zs.len(),
                j <= n,
                rr == spec_bullet_stats(b.kind).radius + ZOMBIE_RADIUS,
                0 < rr <= 52_000,
                -POS_LIMIT <= b.x <= POS_LIMIT && -POS_LIMIT <= b.y <= POS_LIMIT,
                forall|k: int|
                    0 <= k < zs.len() ==> -POS_LIMIT <= #[trigger] zs[k].x <= POS_LIMIT
                        && -POS_LIMIT <= zs[k].y <= POS_LIMIT && zs[k].hp >= 1,
                !found ==> spec_first_hit(b, zs) == spec_first_hit_from(b, zs, j as int),
                found ==> j < n && spec_first_hit(b, zs) == Some(j as int),
            decreases zs.len() - j, (if found { 0int } else { 1int }),
        {
            let z = zombies[j];
            let mut hit: bool = false;
            if b.row == z.row {
                let dx = b.x - z.x;
                let dy = b.y - z.y;
                proof {
                    assert(dx * dx <= 600_000_000 * 600_000_000 && dx * dx >= 0)
                        by (nonlinear_arith)
                        requires
                            -600_000_000 <= dx <= 600_000_000,
                    ;
                    assert(dy * dy <= 600_000_000 * 600_000_000 && dy * dy >= 0)
                        by (nonlinear_arith)
                        requires
                            -600_000_000 <= dy <= 600_000_000,
                    ;
                    assert(rr * rr <= 52_000 * 52_000 && rr * rr >= 0) by (nonlinear_arith)
                        requires
                            0 < rr <= 52_000,
                    ;
                }
                let d2 = dx * dx + dy * dy;
                if d2 <= rr * rr {
                    hit = true;
                }
            }
            proof {
                assert(hit == spec_hits(b, zs[j as int]));
            }
            if hit {
                found = true;
            } else {
                j += 1;
            }
        }
        if found {
            proof {
                lemma_first_hit_from_props(b, zs, 0);
            }
            let z = zombies[j];
            let d = stats(b.kind).damage;
            if z.hp <= d {
                zombies.remove(j);
            } else {
                zombies[j] = Zombie { hp: z.hp - d, ..z };
            }
            proof {
                assert(zombies@ == spec_apply_hit(b, zs, j as int));
                assert(spec_resolve_bullet(b, zs) == (false, zombies@));
                lemma_bullet_stats_bounds(b.kind);
                assert forall|k: int|
                    0 <= k < zombies@.len() implies -POS_LIMIT <= #[trigger] zombies@[k].x
                    <= POS_LIMIT && -POS_LIMIT <= zombies@[k].y <= POS_LIMIT && zombies@[k].hp
                    >= 1 by {
                    if zs[j as int].hp <= spec_bullet_stats(b.kind).damage {
                        if k < j {
                            assert(zombies@[k] == zs[k]);
                        } else {
                            assert(zombies@[k] == zs[k + 1]);
                        }
                    } else {
                        if k != j {
                            assert(zombies@[k] == zs[k]);
                        }
                    }
                }
            }
        } else {
            kept.push(b);
            proof {
                assert(spec_first_hit_from(b, zs, n as int) is None);
                assert(spec_resolve_bullet(b, zs) == (true, zs));
            }
        }
        proof {
            assert(spec_resolve(bs0.skip(i as int), zs) == ({
                let r0 = spec_resolve_bullet(b, zs);
                let rest = spec_resolve(bs0.skip(i + 1), r0.1);
                ((if r0.0 {
                    seq![b] + rest.0
                } else {
                    rest.0
                }), rest.1)
            }));
            if spec_resolve_bullet(b, zs).0 {
                assert(kept@ =~= kept@.drop_last().push(b));
                assert(kept@.drop_last() + (seq![b] + spec_resolve(bs0.skip(i + 1), zombies@).0)
                    =~= kept@ + spec_resolve(bs0.skip(i + 1), zombies@).0);
            }
        }
        i += 1;
    }
    proof {
        assert(bs0.skip(bs0.len() as int) =~= Seq::<Bullet>::empty());
        assert(kept@ + Seq::<Bullet>::empty() =~= kept@);
    }
    *bullets = kept;
}


/// The cumulative damage of a volley of projectiles.
pub open spec fn spec_total_damage(bullets: Seq<Bullet>) -> int
    decreases bullets.len(),
{
    if bullets.len() == 0 {
        0
    } else {
        spec_bullet_stats(bullets[0].kind).damage + spec_total_damage(bullets.drop_first())
    }
}

/// A volley's cumulative damage is never negative.
pub proof fn lemma_total_damage_nonneg(bullets: Seq<Bullet>)
    ensures
        spec_total_damage(bullets) >= 0,
    decreases bullets.len(),
{
    if bullets.len() > 0 {
        lemma_bullet_stats_bounds(bullets[0].kind);
        lemma_total_damage_nonneg(bullets.drop_first());
    }
}

/// With no creatures left, a resolution destroys nothing and consumes no
/// projectile.
pub proof fn lemma_resolve_without_creatures(bullets: Seq<Bullet>)
    ensures
        spec_resolve(bullets, Seq::<Zombie>::empty()).0 == bullets,
        spec_resolve(bullets, Seq::<Zombie>::empty()).1 == Seq::<Zombie>::empty(),
    decreases bullets.len(),
{
    if bullets.len() > 0 {
        lemma_resolve_without_creatures(bullets.drop_first());
        assert(spec_first_hit(bullets[0], Seq::<Zombie>::empty()) is None);
        assert(seq![bullets[0]] + bullets.drop_first() =~= bullets);
    }
}

/// The cumulative form of the damage law, for one creature under fire: when
/// every projectile of a volley reaches the creature, it is destroyed exactly
/// when the volley's cumulative damage reaches its starting health; otherwise
/// it survives with its health lowered by exactly that total.
pub proof fn lemma_destroyed_iff_cumulative_damage(bullets: Seq<Bullet>, z: Zombie)
    requires
        z.hp >= 1,
        forall|i: int| 0 <= i < bullets.len() ==> spec_hits(#[trigger] bullets[i], z),
    ensures
        spec_total_damage(bullets) >= z.hp ==> spec_resolve(bullets, seq![z]).1
            == Seq::<Zombie>::empty(),
        spec_total_damage(bullets) < z.hp ==> spec_resolve(bullets, seq![z]).1 == seq![
            Zombie { hp: (z.hp - spec_total_damage(bullets)) as i32, ..z },
        ],
    decreases bullets.len(),
{
    let zs = seq![z];
    if bullets.len() == 0 {
        assert(spec_resolve(bullets, zs).1 == zs);
        assert(zs =~= seq![Zombie { hp: (z.hp - 0) as i32, ..z }]);
    } else {
        let b = bullets[0];
        let d = spec_bullet_stats(b.kind).damage;
        lemma_bullet_stats_bounds(b.kind);
        assert(spec_hits(b, zs[0]));
        assert(spec_first_hit(b, zs) == Some(0int));
        lemma_total_damage_nonneg(bullets.drop_first());
        if z.hp <= d {
            assert(spec_apply_hit(b, zs, 0) =~= zs.remove(0));
            assert(zs.remove(0) =~= Seq::<Zombie>::empty());
            lemma_resolve_without_creatures(bullets.drop_first());
            assert(spec_resolve(bullets, zs).1 == Seq::<Zombie>::empty());
        } else {
            let z1 = Zombie { hp: (z.hp - d) as i32, ..z };
            assert(spec_apply_hit(b, zs, 0) =~= seq![z1]);
            assert forall|i: int| 0 <= i < bullets.drop_first().len() implies spec_hits(
                #[trigger] bullets.drop_first()[i],
                z1,
            ) by {
                assert(bullets.drop_first()[i] == bullets[i + 1]);
                assert(spec_hits(bullets[i + 1], z));
            }
            lemma_destroyed_iff_cumulative_damage(bullets.drop_first(), z1);
            assert(spec_resolve(bullets, zs).1 == spec_resolve(bullets.drop_first(), seq![z1]).1);
            if spec_total_damage(bullets) < z.hp {
                assert(seq![Zombie { hp: (z1.hp - spec_total_damage(bullets.drop_first())) as i32, ..z1 }]
                    =~= seq![Zombie { hp: (z.hp - spec_total_damage(bullets)) as i32, ..z }]);
            }
        }
    }
}

} // verus!
