use vstd::prelude::*;
use crate::screens::Screen;
use vstd::arithmetic::div_mod::lemma_fundamental_div_mod_converse;

verus! {

/// How many enemies a round starts with.
pub const ENEMY_COUNT: usize = 25;

/// The largest formation `enemy_formation` lays out; every coordinate it
/// produces then stays below 2^24, so it is exact as an `f32`.
pub const MAX_FORMATION: usize = 1_000_000;

/// Where the enemy after one at `p` is placed: 90 pixels to the right, or,
/// past x = 800, at the start of the next row, 90 pixels lower, at x = 120.
pub open spec fn formation_next(p: (int, int)) -> (int, int) {
    let x = p.0 + 90;
    if x > 800 {
        (120, p.1 + 90)
    } else {
        (x, p.1)
    }
}

/// The top-left corner of enemy number `k` of the formation; the first
/// stands at (80, 50).
pub open spec fn formation_slot(k: nat) -> (int, int)
    decreases k,
{
    if k == 0 {
        (80, 50)
    } else {
        formation_next(formation_slot((k - 1) as nat))
    }
}

/// The formation row by row: nine enemies from x = 80 to x = 800 on the
/// first row at y = 50, then rows of eight from x = 120 to x = 750, each
/// 90 pixels below the last.
pub open spec fn formation_slot_closed(k: nat) -> (int, int) {
    if k < 9 {
        (80 + 90 * k as int, 50)
    } else {
        let j = k - 9;
        (120 + 90 * (j % 8), 140 + 90 * (j / 8))
    }
}

/// The formation laid out step by step is the one described row by row.
pub proof fn lemma_formation_rows(k: nat)
    ensures
        formation_slot(k) == formation_slot_closed(k),
    decreases k,
{
    if k > 0 {
        let i = (k - 1) as nat;
        lemma_formation_rows(i);
        if i >= 9 {
            let j = i - 9;
            let q = j / 8;
            let r = j % 8;
            assert(j == 8 * q + r);
            if r < 7 {
                lemma_fundamental_div_mod_converse(j + 1, 8, q, r + 1);
            } else {
                lemma_fundamental_div_mod_converse(j + 1, 8, q + 1, 0);
            }
        }
    }
}

/// Every enemy starts inside the playfield: x between 80 and 800, y at
/// least 50, and row by row no lower than its number allows.
pub proof fn lemma_formation_bounds(k: nat)
    ensures
        80 <= formation_slot(k).0 <= 800,
        50 <= formation_slot(k).1 <= 140 + 90 * (k / 8),
{
    lemma_formation_rows(k);
    if k >= 9 {
        let j = k - 9;
        assert(j / 8 <= k / 8) by {
            vstd::arithmetic::div_mod::lemma_div_is_ordered(j as int, k as int, 8);
        }
    }
}

/// No two enemies of the formation start at the same place.
pub proof fn lemma_formation_distinct(a: nat, b: nat)
    requires
        a != b,
    ensures
        formation_slot(a) != formation_slot(b),
{
    lemma_formation_rows(a);
    lemma_formation_rows(b);
    if a >= 9 && b >= 9 {
        let ja = a - 9;
        let jb = b - 9;
        if ja % 8 == jb % 8 && ja / 8 == jb / 8 {
            vstd::arithmetic::div_mod::lemma_fundamental_div_mod(ja as int, 8);
            vstd::arithmetic::div_mod::lemma_fundamental_div_mod(jb as int, 8);
        }
    }
}

/// The top-left corners of the first `count` enemies of a round, in the
/// order in which they are created.
pub fn enemy_formation(count: usize) -> (slots: Vec<(u32, u32)>)
    requires
        count <= MAX_FORMATION,
    ensures
        slots@.len() == count,
        forall|k: int|
            0 <= k < count ==> (#[trigger] slots@[k]).0 == formation_slot(k as nat).0
                && slots@[k].1 == formation_slot(k as nat).1,
        forall|k: int| 0 <= k < count ==> (#[trigger] slots@[k]).1 < 0x100_0000,
{
    let mut slots: Vec<(u32, u32)> = Vec::new();
    let mut x: u32 = 80;
    let mut y: u32 = 50;
    let mut i: usize = 0;
    while i < count
        invariant
            i <= count <= MAX_FORMATION,
            slots@.len() == i,
            x == formation_slot(i as nat).0,
            y == formation_slot(i as nat).1,
            forall|k: int|
                0 <= k < i ==> (#[trigger] slots@[k]).0 == formation_slot(k as nat).0
                    && slots@[k].1 == formation_slot(k as nat).1,
            forall|k: int| 0 <= k < i ==> (#[trigger] slots@[k]).1 < 0x100_0000,
        decreases count - i,
    {
        proof {
            lemma_formation_bounds(i as nat);
            lemma_formation_bounds((i + 1) as nat);
            assert((i + 1) / 8 <= 125_000);
        }
        slots.push((x, y));
        x = x + 90;
        if x > 800 {
            x = 120;
            y = y + 90;
        }
        i = i + 1;
    }
    slots
}

/// The hearts a player starts a round with.
pub const STARTING_HEARTS: i32 = 3;

/// What became of one of the player's bullets during a frame.
#[derive(Clone, Copy, Debug, PartialEq, Eq, Structural)]
pub enum PlayerShot {
    /// It struck the enemy with this index.
    HitEnemy(usize),
    /// It struck one of the shield walls.
    HitWall,
    /// It flew off the top of the screen.
    OffScreen,
}

/// What became of one of the enemies' bullets during a frame.
#[derive(Clone, Copy, Debug, PartialEq, Eq, Structural)]
pub enum EnemyShot {
    /// It struck the player.
    HitPlayer,
    /// It struck one of the shield walls.
    HitWall,
    /// It fell off the bottom of the screen.
    OffScreen,
}

/// What a player's bullet met this frame, given which enemy it struck
/// first (if any), whether it struck a wall and whether it is off the top of
/// the screen. Striking an enemy counts before striking a wall, and a wall
/// before leaving the screen.
pub open spec fn player_shot_for(enemy_hit: Option<usize>, hits_wall: bool, off_screen: bool) -> Option<PlayerShot> {
    match enemy_hit {
        Some(j) => Some(PlayerShot::HitEnemy(j)),
        None => if hits_wall {
            Some(PlayerShot::HitWall)
        } else if off_screen {
            Some(PlayerShot::OffScreen)
        } else {
            None
        },
    }
}

/// Decides what a player's bullet met this frame; `None` while it flies on.
pub fn classify_player_shot(enemy_hit: Option<usize>, hits_wall: bool, off_screen: bool) -> (shot: Option<PlayerShot>)
    ensures
        shot == player_shot_for(enemy_hit, hits_wall, off_screen),
{
    if let Some(j) = enemy_hit {
        return Some(PlayerShot::HitEnemy(j));
    }
    if hits_wall {
        Some(PlayerShot::HitWall)
    } else if off_screen {
        Some(PlayerShot::OffScreen)
    } else {
        None
    }
}

/// What an enemy's bullet met this frame, given whether it struck the
/// player, a wall, and whether it is off the bottom of the screen. Striking
/// the player counts before striking a wall, and a wall before leaving the
/// screen.
pub open spec fn enemy_shot_for(hits_player: bool, hits_wall: bool, off_screen: bool) -> Option<EnemyShot> {
    if hits_player {
        Some(EnemyShot::HitPlayer)
    } else if hits_wall {
        Some(EnemyShot::HitWall)
    } else if off_screen {
        Some(EnemyShot::OffScreen)
    } else {
        None
    }
}

/// Decides what an enemy's bullet met this frame; `None` while it flies on.
pub fn classify_enemy_shot(hits_player: bool, hits_wall: bool, off_screen: bool) -> (shot: Option<EnemyShot>)
    ensures
        shot == enemy_shot_for(hits_player, hits_wall, off_screen),
{
    if hits_player {
        Some(EnemyShot::HitPlayer)
    } else if hits_wall {
        Some(EnemyShot::HitWall)
    } else if off_screen {
        Some(EnemyShot::OffScreen)
    } else {
        None
    }
}

/// Looks at the items `0..count` in order with `probe` and stops at the
/// first for which it reports something: the index of that item with the
/// report, or `None` when none reported anything. Items after the first
/// report are not looked at. A frame handles at most one bullet event this
/// way: the first bullet that meets something.
pub fn first_event<T, F: Fn(usize) -> Option<T>>(count: usize, probe: F) -> (event: Option<(usize, T)>)
    requires
        forall|i: usize| i < count ==> call_requires(probe, (i,)),
    ensures
        match event {
            Some((i, report)) => {
                &&& i < count
                &&& call_ensures(probe, (i,), Some(report))
                &&& forall|j: usize| j < i ==> #[trigger] call_ensures(probe, (j,), None::<T>)
            },
            None => forall|j: usize| j < count ==> #[trigger] call_ensures(probe, (j,), None::<T>),
        },
{
    let mut i: usize = 0;
    while i < count
        invariant
            i <= count,
            forall|i: usize| i < count ==> call_requires(probe, (i,)),
            forall|j: usize| j < i ==> #[trigger] call_ensures(probe, (j,), None::<T>),
        decreases count - i,
    {
        match probe(i) {
            Some(report) => {
                return Some((i, report));
            },
            None => {},
        }
        i = i + 1;
    }
    None
}

/// The first of the items `0..count` for which `hit` holds, looked at in
/// order; the items after it are not looked at.
pub fn first_hit<F: Fn(usize) -> bool>(count: usize, hit: F) -> (first: Option<usize>)
    requires
        forall|i: usize| i < count ==> call_requires(hit, (i,)),
    ensures
        match first {
            Some(i) => {
                &&& i < count
                &&& call_ensures(hit, (i,), true)
                &&& forall|j: usize| j < i ==> #[trigger] call_ensures(hit, (j,), false)
            },
            None => forall|j: usize| j < count ==> #[trigger] call_ensures(hit, (j,), false),
        },
{
    let mut i: usize = 0;
    while i < count
        invariant
            i <= count,
            forall|i: usize| i < count ==> call_requires(hit, (i,)),
            forall|j: usize| j < i ==> #[trigger] call_ensures(hit, (j,), false),
        decreases count - i,
    {
        if hit(i) {
            return Some(i);
        }
        i = i + 1;
    }
    None
}

/// A round ends exactly when it is won or lost: with no enemy standing it is
/// over, with fewer than one heart it is over however many enemies stand,
/// and a round that is over has no enemy left or no heart left.
pub proof fn lemma_round_end(round: Round, enemies_left: nat)
    ensures
        enemies_left == 0 ==> round.spec_is_over(enemies_left),
        round.spec_hearts() < 1 ==> round.spec_is_over(enemies_left),
        round.spec_is_over(enemies_left) ==> enemies_left == 0 || round.spec_hearts() < 1,
        round.spec_hearts() >= 1 && enemies_left > 0 ==> !round.spec_is_over(enemies_left),
{
}

/// An enemy bullet that strikes the player always costs a heart, whatever
/// else it touches; one that misses the player is stopped by a wall, then by
/// the bottom of the screen, and otherwise flies on.
pub proof fn lemma_enemy_shot_precedence(hits_player: bool, hits_wall: bool, off_screen: bool)
    ensures
        hits_player ==> enemy_shot_for(hits_player, hits_wall, off_screen) == Some(EnemyShot::HitPlayer),
        !hits_player && hits_wall ==> enemy_shot_for(hits_player, hits_wall, off_screen) == Some(
            EnemyShot::HitWall,
        ),
        !hits_player && !hits_wall && off_screen ==> enemy_shot_for(hits_player, hits_wall, off_screen)
            == Some(EnemyShot::OffScreen),
        enemy_shot_for(hits_player, hits_wall, off_screen) is None <==> (!hits_player && !hits_wall
            && !off_screen),
{
}

/// A player's bullet that strikes an enemy destroys that very enemy,
/// whatever else it touches; one that strikes no enemy is stopped by a wall,
/// then by the top of the screen, and otherwise flies on.
pub proof fn lemma_player_shot_precedence(enemy_hit: Option<usize>, hits_wall: bool, off_screen: bool)
    ensures
        enemy_hit matches Some(j) ==> player_shot_for(enemy_hit, hits_wall, off_screen) == Some(
            PlayerShot::HitEnemy(j),
        ),
        enemy_hit is None && hits_wall ==> player_shot_for(enemy_hit, hits_wall, off_screen) == Some(
            PlayerShot::HitWall,
        ),
        enemy_hit is None && !hits_wall && off_screen ==> player_shot_for(enemy_hit, hits_wall, off_screen)
            == Some(PlayerShot::OffScreen),
        player_shot_for(enemy_hit, hits_wall, off_screen) is None <==> (enemy_hit is None && !hits_wall
            && !off_screen),
{
}

/// The enemy a bullet struck is the one taken out of the list: one enemy
/// fewer, those before it unmoved, those after it moved up by one. A bullet
/// that struck no enemy leaves the enemies as they were.
pub proof fn lemma_struck_enemy_removed<E>(enemies: Seq<E>, shot: PlayerShot)
    requires
        shot matches PlayerShot::HitEnemy(j) ==> j < enemies.len(),
    ensures
        shot matches PlayerShot::HitEnemy(j) ==> {
            &&& enemies_after(enemies, shot).len() == enemies.len() - 1
            &&& forall|k: int| 0 <= k < j ==> #[trigger] enemies_after(enemies, shot)[k] == enemies[k]
            &&& forall|k: int|
                j <= k < enemies.len() - 1 ==> #[trigger] enemies_after(enemies, shot)[k] == enemies[k
                    + 1]
        },
        !(shot is HitEnemy) ==> enemies_after(enemies, shot) == enemies,
{
}

/// The enemies left after a player's bullet has done what `shot` says.
pub open spec fn enemies_after<E>(enemies: Seq<E>, shot: PlayerShot) -> Seq<E> {
    match shot {
        PlayerShot::HitEnemy(j) => enemies.remove(j as int),
        _ => enemies,
    }
}

/// Applies what became of the player's bullet number `bullet`: the bullet is
/// spent whatever it met, and an enemy it struck is destroyed with it. The
/// other enemies and bullets stay, in their order.
pub fn resolve_player_shot<E, B>(
    enemies: &mut Vec<E>,
    bullets: &mut Vec<B>,
    bullet: usize,
    shot: PlayerShot,
)
    requires
        bullet < old(bullets)@.len(),
        shot matches PlayerShot::HitEnemy(j) ==> j < old(enemies)@.len(),
    ensures
        final(bullets)@ == old(bullets)@.remove(bullet as int),
        final(enemies)@ == enemies_after(old(enemies)@, shot),
{
    if let PlayerShot::HitEnemy(j) = shot {
        enemies.remove(j);
    }
    bullets.remove(bullet);
}

/// The state of a round that outlives a single frame: the player's hearts.
pub struct Round {
    hearts: i32,
}

impl Round {
    /// The player's hearts.
    pub closed spec fn spec_hearts(&self) -> i32 {
        self.hearts
    }

    /// A new round, with the player's hearts full.
    pub fn new() -> (round: Round)
        ensures
            round.spec_hearts() == STARTING_HEARTS,
    {
        Round { hearts: STARTING_HEARTS }
    }

    /// The player's hearts.
    pub fn hearts(&self) -> (hearts: i32)
        ensures
            hearts == self.spec_hearts(),
    {
        self.hearts
    }

    /// Whether the round is over with `enemies_left` enemies standing: all
    /// enemies destroyed, or no heart left.
    pub open spec fn spec_is_over(&self, enemies_left: nat) -> bool {
        enemies_left == 0 || self.spec_hearts() < 1
    }

    /// Whether the round is over with `enemies_left` enemies standing: the
    /// game then goes back to the welcome screen.
    pub fn is_over(&self, enemies_left: usize) -> (over: bool)
        ensures
            over == self.spec_is_over(enemies_left as nat),
    {
        enemies_left == 0 || self.hearts < 1
    }

    /// Where the game goes at the end of a frame with `enemies_left` enemies
    /// standing: back to the welcome screen once the round is won or lost,
    /// nowhere (the round goes on) otherwise.
    pub fn next_screen(&self, enemies_left: usize) -> (next: Option<Screen>)
        ensures
            next == (if self.spec_is_over(enemies_left as nat) {
                Some(Screen::Welcome)
            } else {
                None
            }),
    {
        if self.is_over(enemies_left) {
            Some(Screen::Welcome)
        } else {
            None
        }
    }

    /// Applies what became of the enemies' bullet number `bullet`: the bullet
    /// is spent whatever it met, and a bullet that struck the player costs a
    /// heart.
    pub fn resolve_enemy_shot<B>(&mut self, bullets: &mut Vec<B>, bullet: usize, shot: EnemyShot)
        requires
            bullet < old(bullets)@.len(),
            old(self).spec_hearts() > i32::MIN,
        ensures
            final(bullets)@ == old(bullets)@.remove(bullet as int),
            final(self).spec_hearts() == old(self).spec_hearts() - (if shot == EnemyShot::HitPlayer {
                1int
            } else {
                0int
            }),
            final(self).spec_hearts() <= old(self).spec_hearts(),
    {
        bullets.remove(bullet);
        if let EnemyShot::HitPlayer = shot {
            self.hearts = self.hearts - 1;
        }
    }

    /// Ends a frame: applies the first event of the player's bullets and the
    /// first event of the enemies' bullets found this frame (each `None` when
    /// no bullet met anything), then says where the game goes next.
    ///
    /// In one frame at most one enemy and at most one heart are lost; an enemy
    /// is lost only together with the player's bullet that struck it, and a
    /// heart only together with an enemy bullet that struck the player.
    pub fn finish_frame<E, B>(
        &mut self,
        enemies: &mut Vec<E>,
        player_bullets: &mut Vec<B>,
        enemy_bullets: &mut Vec<B>,
        player_event: Option<(usize, PlayerShot)>,
        enemy_event: Option<(usize, EnemyShot)>,
    ) -> (next: Option<Screen>)
        requires
            player_event matches Some((i, shot)) ==> i < old(player_bullets)@.len() && (
            shot matches PlayerShot::HitEnemy(j) ==> j < old(enemies)@.len()),
            enemy_event matches Some((i, _)) ==> i < old(enemy_bullets)@.len(),
            old(self).spec_hearts() > i32::MIN,
        ensures
            final(player_bullets)@ == (match player_event {
                Some((i, _)) => old(player_bullets)@.remove(i as int),
                None => old(player_bullets)@,
            }),
            final(enemies)@ == (match player_event {
                Some((_, shot)) => enemies_after(old(enemies)@, shot),
                None => old(enemies)@,
            }),
            final(enemy_bullets)@ == (match enemy_event {
                Some((i, _)) => old(enemy_bullets)@.remove(i as int),
                None => old(enemy_bullets)@,
            }),
            final(self).spec_hearts() == old(self).spec_hearts() - (if enemy_event matches Some(
                (_, EnemyShot::HitPlayer),
            ) {
                1int
            } else {
                0int
            }),
            next == (if final(self).spec_is_over(final(enemies)@.len()) {
                Some(Screen::Welcome)
            } else {
                None
            }),
            old(enemies)@.len() - 1 <= final(enemies)@.len() <= old(enemies)@.len(),
            old(self).spec_hearts() - 1 <= final(self).spec_hearts() <= old(self).spec_hearts(),
            final(enemies)@.len() < old(enemies)@.len() ==> {
                &&& player_event matches Some((_, PlayerShot::HitEnemy(_)))
                &&& final(player_bullets)@.len() == old(player_bullets)@.len() - 1
            },
            final(self).spec_hearts() < old(self).spec_hearts() ==> {
                &&& enemy_event matches Some((_, EnemyShot::HitPlayer))
                &&& final(enemy_bullets)@.len() == old(enemy_bullets)@.len() - 1
            },
    {
        if let Some((i, shot)) = player_event {
            resolve_player_shot(enemies, player_bullets, i, shot);
        }
        if let Some((i, shot)) = enemy_event {
            self.resolve_enemy_shot(enemy_bullets, i, shot);
        }
        self.next_screen(enemies.len())
    }
}

/// A round that is over stays over: resolving shots never adds a heart and
/// never brings an enemy back.
pub proof fn lemma_over_stays_over(before: Round, after: Round, enemies_before: nat, enemies_after: nat)
    requires
        before.spec_is_over(enemies_before),
        after.spec_hearts() <= before.spec_hearts(),
        enemies_after <= enemies_before,
    ensures
        after.spec_is_over(enemies_after),
{
}

/// The x coordinate of heart icon number `i`: 20 pixels in, 60 apart.
pub open spec fn heart_x(i: int) -> int {
    20 + 60 * i
}

/// The first heart icon stands 20 pixels in, and each next one 60 pixels
/// further right.
pub proof fn lemma_heart_spacing(i: int)
    ensures
        heart_x(0) == 20,
        heart_x(i + 1) == heart_x(i) + 60,
{
}

/// The x coordinates of the heart icons drawn for `hearts` hearts; none when
/// no heart is left.
pub fn heart_positions(hearts: i32) -> (xs: Vec<u64>)
    ensures
        xs@.len() == (if hearts > 0 {
            hearts as int
        } else {
            0
        }),
        forall|i: int| 0 <= i < xs@.len() ==> #[trigger] xs@[i] == heart_x(i),
{
    let mut xs: Vec<u64> = Vec::new();
    let mut i: i32 = 0;
    while i < hearts
        invariant
            0 <= i,
            hearts > 0 ==> i <= hearts,
            hearts <= 0 ==> i == 0,
            xs@.len() == i,
            forall|k: int| 0 <= k < xs@.len() ==> #[trigger] xs@[k] == heart_x(k),
        decreases hearts - i,
    {
        let x: u64 = 20 + 60 * (i as u64);
        xs.push(x);
        i = i + 1;
    }
    xs
}

/// The largest count `random_index` draws from: beyond 2^53 a count is no
/// longer exact as an `f64`, in which the draw is computed.
pub const MAX_DRAW: u64 = 0x20_0000_0000_0000;

/// Draws a pseudo-random index with `macroquad::rand::gen_range(0, count)`.
/// The draw scales a 32-bit random number by `count` in `f64` and truncates;
/// for `0 < count <= 2^53` the product stays below `count`, so the result
/// is a valid index. Which index comes out depends on the generator's state
/// and is not stated.
#[verifier::external_body]
fn random_index(count: usize) -> (idx: usize)
    requires
        0 < count <= MAX_DRAW,
    ensures
        idx < count,
{
    macroquad::rand::gen_range(0usize, count)
}

/// Lets an enemy fire when the fire timer has run out: if an enemy stands,
/// one of them is picked at random and the bullet `make_bullet` makes for it
/// (placed at that enemy) is added; otherwise nothing is fired. Returns the
/// enemy that fired. At most one bullet is added per call.
pub fn fire_enemy_bullet<B, F: Fn(usize) -> B>(
    enemy_bullets: &mut Vec<B>,
    timer_elapsed: bool,
    enemy_count: usize,
    make_bullet: F,
) -> (shooter: Option<usize>)
    requires
        enemy_count <= MAX_DRAW,
        forall|i: usize| i < enemy_count ==> call_requires(make_bullet, (i,)),
    ensures
        shooter is Some <==> timer_elapsed && enemy_count > 0,
        match shooter {
            Some(i) => {
                &&& i < enemy_count
                &&& final(enemy_bullets)@.len() == old(enemy_bullets)@.len() + 1
                &&& final(enemy_bullets)@.drop_last() == old(enemy_bullets)@
                &&& call_ensures(make_bullet, (i,), final(enemy_bullets)@.last())
            },
            None => final(enemy_bullets)@ == old(enemy_bullets)@,
        },
{
    if !timer_elapsed {
        return None;
    }
    match pick_shooter(enemy_count) {
        Some(i) => {
            let bullet = make_bullet(i);
            enemy_bullets.push(bullet);
            proof {
                assert(enemy_bullets@.drop_last() =~= old(enemy_bullets)@);
            }
            Some(i)
        },
        None => None,
    }
}

/// Picks the enemy that fires next, at random among the `enemy_count`
/// standing; none fires when no enemy is left.
pub fn pick_shooter(enemy_count: usize) -> (shooter: Option<usize>)
    requires
        enemy_count <= MAX_DRAW,
    ensures
        shooter is None <==> enemy_count == 0,
        shooter matches Some(i) ==> i < enemy_count,
{
    if enemy_count == 0 {
        None
    } else {
        Some(random_index(enemy_count))
    }
}

} // verus!
