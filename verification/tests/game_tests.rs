use space_invaders::enemy::Heading;
use space_invaders::game::{
    classify_enemy_shot, classify_player_shot, enemy_formation, fire_enemy_bullet, first_event, first_hit, heart_positions, pick_shooter, resolve_player_shot, EnemyShot, PlayerShot,
    Round, ENEMY_COUNT, STARTING_HEARTS,
};
use space_invaders::player::horizontal_input;
use space_invaders::screens::{window_settings, Screen};

#[test]
fn formation_of_a_round() {
    let slots = enemy_formation(ENEMY_COUNT);
    assert_eq!(slots.len(), 25);
    assert_eq!(slots[0], (80, 50));
    assert_eq!(slots[1], (170, 50));
    assert_eq!(slots[8], (800, 50));
    assert_eq!(slots[9], (120, 140));
    assert_eq!(slots[16], (750, 140));
    assert_eq!(slots[17], (120, 230));
    assert_eq!(slots[24], (750, 230));
}

#[test]
fn formation_positions_are_distinct_and_inside() {
    let slots = enemy_formation(200);
    for (i, a) in slots.iter().enumerate() {
        assert!(80 <= a.0 && a.0 <= 800 && a.1 >= 50);
        for b in slots.iter().skip(i + 1) {
            assert_ne!(a, b);
        }
    }
}

#[test]
fn empty_formation() {
    assert!(enemy_formation(0).is_empty());
}

#[test]
fn bullet_hitting_an_enemy_destroys_both() {
    let mut enemies = vec!['a', 'b', 'c'];
    let mut bullets = vec![10, 20];
    resolve_player_shot(&mut enemies, &mut bullets, 1, PlayerShot::HitEnemy(0));
    assert_eq!(enemies, vec!['b', 'c']);
    assert_eq!(bullets, vec![10]);
}

#[test]
fn bullet_hitting_a_wall_or_leaving_is_spent() {
    let mut enemies = vec!['a', 'b'];
    let mut bullets = vec![10, 20, 30];
    resolve_player_shot(&mut enemies, &mut bullets, 1, PlayerShot::HitWall);
    assert_eq!(bullets, vec![10, 30]);
    resolve_player_shot(&mut enemies, &mut bullets, 0, PlayerShot::OffScreen);
    assert_eq!(bullets, vec![30]);
    assert_eq!(enemies, vec!['a', 'b']);
}

#[test]
fn enemy_bullet_hitting_the_player_costs_a_heart() {
    let mut round = Round::new();
    assert_eq!(round.hearts(), STARTING_HEARTS);
    let mut bullets = vec![1, 2, 3];
    round.resolve_enemy_shot(&mut bullets, 2, EnemyShot::HitPlayer);
    assert_eq!(bullets, vec![1, 2]);
    assert_eq!(round.hearts(), 2);
    round.resolve_enemy_shot(&mut bullets, 0, EnemyShot::HitWall);
    round.resolve_enemy_shot(&mut bullets, 0, EnemyShot::OffScreen);
    assert!(bullets.is_empty());
    assert_eq!(round.hearts(), 2);
}

#[test]
fn round_ends_without_hearts_or_enemies() {
    let mut round = Round::new();
    assert!(!round.is_over(25));
    assert!(round.is_over(0));
    let mut bullets = vec![(); 3];
    for _ in 0..3 {
        assert!(!round.is_over(1));
        round.resolve_enemy_shot(&mut bullets, 0, EnemyShot::HitPlayer);
    }
    assert_eq!(round.hearts(), 0);
    assert!(round.is_over(1));
    assert_eq!(round.next_screen(1), Some(Screen::Welcome));
}

#[test]
fn round_goes_on_while_enemies_and_hearts_remain() {
    let round = Round::new();
    assert_eq!(round.next_screen(3), None);
    assert_eq!(round.next_screen(0), Some(Screen::Welcome));
}

#[test]
fn hearts_are_drawn_sixty_apart() {
    assert_eq!(heart_positions(3), vec![20, 80, 140]);
    assert_eq!(heart_positions(1), vec![20]);
    assert!(heart_positions(0).is_empty());
    assert!(heart_positions(-1).is_empty());
}

#[test]
fn shooter_is_a_standing_enemy() {
    assert_eq!(pick_shooter(0), None);
    assert_eq!(pick_shooter(1), Some(0));
    for _ in 0..100 {
        let i = pick_shooter(25).unwrap();
        assert!(i < 25);
    }
}

#[test]
fn movement_keys() {
    assert_eq!(horizontal_input(true, false), 1);
    assert_eq!(horizontal_input(false, true), -1);
    assert_eq!(horizontal_input(true, true), 0);
    assert_eq!(horizontal_input(false, false), 0);
}

#[test]
fn enemies_bounce_off_walls() {
    let h = Heading::initial();
    assert_eq!(h, Heading::Right);
    assert_eq!(h.sign(), 1);
    assert_eq!(h.after_step(false), Heading::Right);
    let back = h.after_step(true);
    assert_eq!(back, Heading::Left);
    assert_eq!(back.sign(), -1);
    assert_eq!(back.after_step(true), Heading::Right);
    assert_eq!(back.reversed().reversed(), back);
}

#[test]
fn screens_route_by_name() {
    assert_eq!(Screen::first(), Screen::Welcome);
    assert_eq!(Screen::from_name("welcome"), Some(Screen::Welcome));
    assert_eq!(Screen::from_name("game"), Some(Screen::Game));
    assert_eq!(Screen::from_name("quit"), None);
    assert_eq!(Screen::from_name(""), None);
    assert_eq!(Screen::Welcome.name(), "welcome");
    assert_eq!(Screen::Game.name(), "game");
    for s in [Screen::Welcome, Screen::Game] {
        assert_eq!(Screen::from_name(&s.name()), Some(s));
    }
}

#[test]
fn window_is_set_up() {
    let w = window_settings();
    assert_eq!(w.title, "space_inavders");
    assert_eq!((w.width, w.height), (1440, 1080));
    assert!(!w.fullscreen && w.high_dpi && w.resizable);
    assert_eq!(w.sample_count, 4);
}

#[test]
fn enemy_hit_counts_before_wall_and_edge() {
    assert_eq!(classify_player_shot(Some(4), true, true), Some(PlayerShot::HitEnemy(4)));
    assert_eq!(classify_player_shot(None, true, true), Some(PlayerShot::HitWall));
    assert_eq!(classify_player_shot(None, false, true), Some(PlayerShot::OffScreen));
    assert_eq!(classify_player_shot(None, false, false), None);
}

#[test]
fn player_hit_counts_before_wall_and_edge() {
    assert_eq!(classify_enemy_shot(true, true, true), Some(EnemyShot::HitPlayer));
    assert_eq!(classify_enemy_shot(false, true, true), Some(EnemyShot::HitWall));
    assert_eq!(classify_enemy_shot(false, false, true), Some(EnemyShot::OffScreen));
    assert_eq!(classify_enemy_shot(false, false, false), None);
}

#[test]
fn only_the_first_bullet_event_of_a_frame_is_handled() {
    let looked = std::cell::RefCell::new(Vec::new());
    let event = first_event(5, |i| {
        looked.borrow_mut().push(i);
        if i >= 2 { Some(i * 10) } else { None }
    });
    assert_eq!(event, Some((2, 20)));
    assert_eq!(*looked.borrow(), vec![0, 1, 2]);
    assert_eq!(first_event(3, |_| None::<u8>), None);
    assert_eq!(first_event(0, |_| Some(1u8)), None);
}

#[test]
fn first_enemy_struck_is_the_lowest_index() {
    assert_eq!(first_hit(6, |j| j == 3 || j == 5), Some(3));
    assert_eq!(first_hit(6, |_| false), None);
    assert_eq!(first_hit(0, |_| true), None);
}

#[test]
fn frame_with_a_hit_enemy_and_a_hit_player() {
    let mut round = Round::new();
    let mut enemies = vec!['a', 'b', 'c'];
    let mut player_bullets = vec![1, 2];
    let mut enemy_bullets = vec![7, 8, 9];
    let next = round.finish_frame(
        &mut enemies,
        &mut player_bullets,
        &mut enemy_bullets,
        Some((0, PlayerShot::HitEnemy(1))),
        Some((2, EnemyShot::HitPlayer)),
    );
    assert_eq!(next, None);
    assert_eq!(enemies, vec!['a', 'c']);
    assert_eq!(player_bullets, vec![2]);
    assert_eq!(enemy_bullets, vec![7, 8]);
    assert_eq!(round.hearts(), 2);
}

#[test]
fn quiet_frame_changes_nothing() {
    let mut round = Round::new();
    let mut enemies = vec!['a'];
    let mut player_bullets = vec![1];
    let mut enemy_bullets: Vec<i32> = vec![];
    let next = round.finish_frame(&mut enemies, &mut player_bullets, &mut enemy_bullets, None, None);
    assert_eq!(next, None);
    assert_eq!((enemies.len(), player_bullets.len(), round.hearts()), (1, 1, 3));
}

#[test]
fn frame_that_destroys_the_last_enemy_ends_the_round() {
    let mut round = Round::new();
    let mut enemies = vec!['a'];
    let mut player_bullets = vec![1];
    let mut enemy_bullets = vec![5];
    let next = round.finish_frame(
        &mut enemies,
        &mut player_bullets,
        &mut enemy_bullets,
        Some((0, PlayerShot::HitEnemy(0))),
        Some((0, EnemyShot::HitWall)),
    );
    assert_eq!(next, Some(Screen::Welcome));
    assert!(enemies.is_empty() && player_bullets.is_empty() && enemy_bullets.is_empty());
    assert_eq!(round.hearts(), 3);
}

#[test]
fn enemies_fire_only_when_the_timer_ran_out() {
    let mut bullets = vec![(0u32, 0u32)];
    assert_eq!(fire_enemy_bullet(&mut bullets, false, 3, |i| (i as u32, 1)), None);
    assert_eq!(bullets.len(), 1);
    assert_eq!(fire_enemy_bullet(&mut bullets, true, 0, |i| (i as u32, 1)), None);
    assert_eq!(bullets.len(), 1);
    assert_eq!(fire_enemy_bullet(&mut bullets, true, 1, |i| (i as u32, 1)), Some(0));
    assert_eq!(bullets, vec![(0, 0), (0, 1)]);
    let shooter = fire_enemy_bullet(&mut bullets, true, 5, |i| (i as u32, 2)).unwrap();
    assert!(shooter < 5);
    assert_eq!(bullets.last(), Some(&(shooter as u32, 2)));
}
