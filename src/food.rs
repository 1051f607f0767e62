use vstd::prelude::*;

verus! {

/// The most food items that may lie in the world at once.
pub const MAX_FOOD: i32 = 5;

/// How many random tiles a spawn tries before giving up.
pub const MAX_SPAWN_ATTEMPTS: u32 = 10;

/// Food within this many tiles of the player can be picked up.
pub const FOOD_PICKUP_RADIUS_TILES: i64 = 32;

/// A tile position.
#[derive(Clone, Copy, Debug, PartialEq, Eq, Hash, Structural)]
pub struct Location2D {
    pub x: i32,
    pub y: i32,
}

/// The tiles where food lies, each once, and the count of food items.
pub struct FoodTracker {
    pub food_spawn_location: Vec<Location2D>,
    pub food_amount: i32,
}

/// Relies on rand::random_range over the thread-local generator: a value drawn
/// from `[lo, hi)`; it panics only on an empty range.
#[verifier::external_body]
fn random_in(lo: i32, hi: i32) -> (r: i32)
    requires
        lo < hi,
    ensures
        lo <= r < hi,
{
    rand::random_range(lo..hi)
}

/// Whether food may be placed on tile `(x, y)`: no food lies there and the
/// player does not stand there.
pub open spec fn allowed(occupied: Seq<Location2D>, player_x: int, player_y: int, x: i32, y: i32) -> bool {
    !occupied.contains(Location2D { x, y }) && !(player_x == x && player_y == y)
}

/// Whether food at `l` is within pickup reach of the player's tile, but not
/// under the player.
pub open spec fn within_pickup(l: Location2D, player_x: int, player_y: int) -> bool {
    let dx = l.x - player_x;
    let dy = l.y - player_y;
    0 < dx * dx + dy * dy <= FOOD_PICKUP_RADIUS_TILES * FOOD_PICKUP_RADIUS_TILES
}

/// `v - n`, saturating at the smallest `i32`.
pub open spec fn saturating_minus(v: int, n: int) -> int {
    if v - n < i32::MIN { i32::MIN as int } else { v - n }
}

/// Whether `target` is listed in `occupied`.
fn holds_location(occupied: &Vec<Location2D>, target: Location2D) -> (r: bool)
    ensures
        r == occupied@.contains(target),
{
    let mut i: usize = 0;
    while i < occupied.len()
        invariant
            i <= occupied@.len(),
            forall|j: int| 0 <= j < i ==> occupied@[j] != target,
        decreases occupied.len() - i,
    {
        if occupied[i] == target {
            assert(occupied@[i as int] == target);
            return true;
        }
        i = i + 1;
    }
    false
}

/// Whether food may be placed on tile `(x, y)`.
pub fn check_allowed_generation(occupied: &Vec<Location2D>, player_x: i32, player_y: i32, x: i32, y: i32) -> (r: bool)
    ensures
        r == allowed(occupied@, player_x as int, player_y as int, x, y),
{
    let is_player_tile = player_x == x && player_y == y;
    let is_free = !holds_location(occupied, Location2D { x, y });
    is_free && !is_player_tile
}

/// `r` is the first candidate where food may be placed, or `None` when every
/// candidate is refused.
pub open spec fn first_allowed_is(
    occupied: Seq<Location2D>,
    player_x: int,
    player_y: int,
    c: Seq<(i32, i32)>,
    r: Option<Location2D>,
) -> bool {
    match r {
        Some(l) => exists|i: int|
            {
                &&& 0 <= i < c.len()
                &&& c[i] == (l.x, l.y)
                &&& allowed(occupied, player_x, player_y, l.x, l.y)
                &&& forall|j: int| 0 <= j < i ==> !allowed(occupied, player_x, player_y, (#[trigger] c[j]).0, c[j].1)
            },
        None => forall|j: int|
            0 <= j < c.len() ==> !allowed(occupied, player_x, player_y, (#[trigger] c[j]).0, c[j].1),
    }
}

/// The first of the drawn `candidates` where food may be placed.
pub fn first_allowed(occupied: &Vec<Location2D>, player_x: i32, player_y: i32, candidates: &Vec<(i32, i32)>) -> (r: Option<Location2D>)
    ensures
        first_allowed_is(occupied@, player_x as int, player_y as int, candidates@, r),
{
    let mut i: usize = 0;
    while i < candidates.len()
        invariant
            i <= candidates@.len(),
            forall|j: int|
                0 <= j < i ==> !allowed(occupied@, player_x as int, player_y as int, (#[trigger] candidates@[j]).0, candidates@[j].1),
        decreases candidates.len() - i,
    {
        let (x, y) = candidates[i];
        if check_allowed_generation(occupied, player_x, player_y, x, y) {
            let l = Location2D { x, y };
            assert(candidates@[i as int] == (l.x, l.y));
            return Some(l);
        }
        i = i + 1;
    }
    None
}

/// Whether food at `l` can be picked up from tile `(player_x, player_y)`.
pub fn in_pickup_range(l: Location2D, player_x: i32, player_y: i32) -> (r: bool)
    ensures
        r == within_pickup(l, player_x as int, player_y as int),
{
    let dx = l.x as i64 - player_x as i64;
    let dy = l.y as i64 - player_y as i64;
    let reach = FOOD_PICKUP_RADIUS_TILES;
    if dx > reach || dx < -reach || dy > reach || dy < -reach {
        assert(dx * dx + dy * dy > reach * reach) by (nonlinear_arith)
            requires
                dx > reach || dx < -reach || dy > reach || dy < -reach,
                reach == 32,
        ;
        return false;
    }
    assert(0 <= dx * dx <= reach * reach && 0 <= dy * dy <= reach * reach) by (nonlinear_arith)
        requires
            -reach <= dx <= reach,
            -reach <= dy <= reach,
            reach == 32,
    ;
    let dist_sq = dx * dx + dy * dy;
    dist_sq > 0 && dist_sq <= reach * reach
}

impl FoodTracker {
    /// The tiles where food lies.
    pub open spec fn spots(&self) -> Seq<Location2D> {
        self.food_spawn_location@
    }

    /// No tile is listed twice.
    pub open spec fn wf(&self) -> bool {
        self.spots().no_duplicates()
    }

    /// No food anywhere.
    pub fn new() -> (r: FoodTracker)
        ensures
            r.wf(),
            r.spots() == Seq::<Location2D>::empty(),
            r.food_amount == 0,
    {
        FoodTracker { food_spawn_location: Vec::new(), food_amount: 0 }
    }

    /// The tiles where food lies.
    pub fn iter_locations(&self) -> (r: Vec<Location2D>)
        ensures
            r@ == self.spots(),
    {
        self.food_spawn_location.clone()
    }

    /// Removes all food.
    pub fn clear(&mut self)
        ensures
            final(self).wf(),
            final(self).spots() == Seq::<Location2D>::empty(),
            final(self).food_amount == 0,
    {
        self.food_spawn_location = Vec::new();
        self.food_amount = 0;
    }

    /// Tries up to `MAX_SPAWN_ATTEMPTS` random tiles in `[1, x_limit) x [1, y_limit)`
    /// and records the first one where food may be placed.
    pub fn food_generate_location(&mut self, player_x: i32, player_y: i32, x_limit: i32, y_limit: i32) -> (r: Option<Location2D>)
        requires
            old(self).wf(),
            x_limit > 1,
            y_limit > 1,
        ensures
            final(self).wf(),
            final(self).food_amount == old(self).food_amount,
            exists|c: Seq<(i32, i32)>| {
                &&& c.len() == MAX_SPAWN_ATTEMPTS
                &&& forall|i: int| 0 <= i < c.len() ==> 1 <= (#[trigger] c[i]).0 < x_limit && 1 <= c[i].1 < y_limit
                &&& first_allowed_is(old(self).spots(), player_x as int, player_y as int, c, r)
            },
            r matches Some(l) ==> {
                &&& 1 <= l.x < x_limit
                &&& 1 <= l.y < y_limit
                &&& allowed(old(self).spots(), player_x as int, player_y as int, l.x, l.y)
                &&& final(self).spots() == old(self).spots().push(l)
            },
            r is None ==> final(self).spots() == old(self).spots(),
    {
        let mut candidates: Vec<(i32, i32)> = Vec::new();
        let mut attempt: u32 = 0;
        while attempt < MAX_SPAWN_ATTEMPTS
            invariant
                x_limit > 1,
                y_limit > 1,
                attempt <= MAX_SPAWN_ATTEMPTS,
                candidates@.len() == attempt,
                forall|i: int|
                    0 <= i < candidates@.len() ==> 1 <= (#[trigger] candidates@[i]).0 < x_limit && 1
                        <= candidates@[i].1 < y_limit,
            decreases MAX_SPAWN_ATTEMPTS - attempt,
        {
            let x = random_in(1, x_limit);
            let y = random_in(1, y_limit);
            candidates.push((x, y));
            attempt = attempt + 1;
        }
        let r = first_allowed(&self.food_spawn_location, player_x, player_y, &candidates);
        proof {
            if let Some(l) = r {
                let i = choose|i: int|
                    {
                        &&& 0 <= i < candidates@.len()
                        &&& candidates@[i] == (l.x, l.y)
                        &&& allowed(old(self).spots(), player_x as int, player_y as int, l.x, l.y)
                        &&& forall|j: int|
                            0 <= j < i ==> !allowed(
                                old(self).spots(),
                                player_x as int,
                                player_y as int,
                                (#[trigger] candidates@[j]).0,
                                candidates@[j].1,
                            )
                    };
                assert(1 <= candidates@[i].0 < x_limit);
            }
        }
        if let Some(location) = r {
            self.food_spawn_location.push(location);
            proof {
                assert forall|i: int, j: int|
                    0 <= i < j < self.spots().len() implies self.spots()[i] != self.spots()[j] by {
                    if j == self.spots().len() - 1 {
                        assert(old(self).spots()[i] == self.spots()[i]);
                    }
                }
            }
        }
        r
    }

    /// One spawn decision: when the timer has fired and fewer than `MAX_FOOD`
    /// items lie in the world, place one on a random free tile and count it.
    pub fn spawn_food(&mut self, timer_finished: bool, player_x: i32, player_y: i32, x_limit: i32, y_limit: i32) -> (r: Option<Location2D>)
        requires
            old(self).wf(),
            x_limit > 1,
            y_limit > 1,
        ensures
            final(self).wf(),
            !(timer_finished && old(self).food_amount < MAX_FOOD) ==> r is None,
            timer_finished && old(self).food_amount < MAX_FOOD ==> exists|c: Seq<(i32, i32)>|
                {
                    &&& c.len() == MAX_SPAWN_ATTEMPTS
                    &&& forall|i: int| 0 <= i < c.len() ==> 1 <= (#[trigger] c[i]).0 < x_limit && 1 <= c[i].1 < y_limit
                    &&& first_allowed_is(old(self).spots(), player_x as int, player_y as int, c, r)
                },
            r matches Some(l) ==> {
                &&& 1 <= l.x < x_limit
                &&& 1 <= l.y < y_limit
                &&& allowed(old(self).spots(), player_x as int, player_y as int, l.x, l.y)
                &&& final(self).spots() == old(self).spots().push(l)
                &&& final(self).food_amount == old(self).food_amount + 1
            },
            r is None ==> final(self).spots() == old(self).spots() && final(self).food_amount == old(
                self,
            ).food_amount,
    {
        if !(timer_finished && self.food_amount < MAX_FOOD) {
            return None;
        }
        let r = self.food_generate_location(player_x, player_y, x_limit, y_limit);
        if r.is_some() {
            self.food_amount = self.food_amount + 1;
        }
        r
    }

    /// Picks up every food item within reach of tile `(player_x, player_y)`:
    /// they leave the tracker, in their order, and the count drops by one for
    /// each, never below the smallest `i32`.
    pub fn food_pickup(&mut self, player_x: i32, player_y: i32) -> (r: Vec<Location2D>)
        requires
            old(self).wf(),
        ensures
            final(self).wf(),
            r@ == old(self).spots().filter(|l: Location2D| within_pickup(l, player_x as int, player_y as int)),
            final(self).spots() == old(self).spots().filter(
                |l: Location2D| !within_pickup(l, player_x as int, player_y as int),
            ),
            final(self).food_amount == saturating_minus(old(self).food_amount as int, r@.len() as int),
    {
        let ghost near = |l: Location2D| within_pickup(l, player_x as int, player_y as int);
        let ghost far = |l: Location2D| !within_pickup(l, player_x as int, player_y as int);
        let ghost all = self.spots();
        let mut picked: Vec<Location2D> = Vec::new();
        let mut kept: Vec<Location2D> = Vec::new();
        let mut amount = self.food_amount;
        let mut i: usize = 0;
        while i < self.food_spawn_location.len()
            invariant
                near == (|l: Location2D| within_pickup(l, player_x as int, player_y as int)),
                far == (|l: Location2D| !within_pickup(l, player_x as int, player_y as int)),
                self.spots() == all,
                all.no_duplicates(),
                i <= all.len(),
                picked@ == all.take(i as int).filter(near),
                kept@ == all.take(i as int).filter(far),
                amount == saturating_minus(old(self).food_amount as int, picked@.len() as int),
            decreases all.len() - i,
        {
            let l = self.food_spawn_location[i];
            proof {
                assert(all.take(i + 1).drop_last() =~= all.take(i as int));
                assert(all.take(i + 1).last() == l);
                assert(near(l) == within_pickup(l, player_x as int, player_y as int));
                assert(far(l) == !within_pickup(l, player_x as int, player_y as int));
                reveal(Seq::filter);
                assert(all.take(i + 1).filter(near) == (if near(l) {
                    all.take(i as int).filter(near).push(l)
                } else {
                    all.take(i as int).filter(near)
                }));
                assert(all.take(i + 1).filter(far) == (if far(l) {
                    all.take(i as int).filter(far).push(l)
                } else {
                    all.take(i as int).filter(far)
                }));
            }
            if in_pickup_range(l, player_x, player_y) {
                picked.push(l);
                amount = if amount > i32::MIN { amount - 1 } else { amount };
            } else {
                kept.push(l);
            }
            i = i + 1;
        }
        proof {
            assert(all.take(all.len() as int) =~= all);
            broadcast use vstd::seq_lib::group_filter_ensures;
            assert forall|a: int, b: int| 0 <= a < b < kept@.len() implies kept@[a] != kept@[b] by {
                lemma_filter_no_duplicates(all, far, a, b);
            }
        }
        self.food_spawn_location = kept;
        self.food_amount = amount;
        picked
    }
}

/// Filtering a sequence without duplicates keeps it without duplicates.
proof fn lemma_filter_no_duplicates(s: Seq<Location2D>, p: spec_fn(Location2D) -> bool, a: int, b: int)
    requires
        s.no_duplicates(),
        0 <= a < b < s.filter(p).len(),
    ensures
        s.filter(p)[a] != s.filter(p)[b],
    decreases s.len(),
{
    reveal(Seq::filter);
    let rest = s.drop_last();
    assert(rest.no_duplicates());
    let fr = rest.filter(p);
    if p(s.last()) {
        if b == fr.len() {
            broadcast use vstd::seq_lib::group_filter_ensures;
            if fr[a] == s.last() {
                assert(fr.contains(s.last()));
                rest.lemma_filter_contains_rev(p, s.last());
                let k = choose|k: int| 0 <= k < rest.len() && rest[k] == s.last();
                assert(s[k] == s[s.len() - 1]);
            }
        } else {
            lemma_filter_no_duplicates(rest, p, a, b);
        }
    } else {
        lemma_filter_no_duplicates(rest, p, a, b);
    }
}

} // verus!
