use tile_light::facing::{
    facing_dir, facing_for_direction, facing_index, input_direction, Facing, PlayerState,
};
use tile_light::food::{check_allowed_generation, first_allowed, in_pickup_range, FoodTracker, Location2D};

#[test]
fn facing_steps() {
    assert_eq!(facing_dir(Facing::Up), (0, 1));
    assert_eq!(facing_dir(Facing::DownRight), (1, -1));
    assert_eq!(facing_dir(Facing::Left), (-1, 0));
    assert_eq!(facing_dir(Facing::UpLeft), (-1, 1));
}

#[test]
fn facing_sprite_indices() {
    assert_eq!(facing_index(Facing::Up), 0);
    assert_eq!(facing_index(Facing::Right), 3);
    assert_eq!(facing_index(Facing::DownLeft), 7);
}

#[test]
fn arrows_give_a_direction() {
    assert_eq!(input_direction(true, false, false, false), (-1, 0));
    assert_eq!(input_direction(true, true, true, false), (0, 1));
    assert_eq!(input_direction(false, true, false, true), (1, -1));
    assert_eq!(input_direction(false, false, false, false), (0, 0));
}

#[test]
fn moves_turn_the_observer() {
    assert_eq!(facing_for_direction(1, 1), Some(Facing::UpRight));
    assert_eq!(facing_for_direction(-1, -1), Some(Facing::DownLeft));
    assert_eq!(facing_for_direction(0, -1), Some(Facing::Down));
    assert_eq!(facing_for_direction(-1, 0), Some(Facing::Left));
    assert_eq!(facing_for_direction(0, 0), None);
    let mut p = PlayerState { facing: Facing::Down };
    p.face_move(0, 0);
    assert_eq!(p.facing, Facing::Down);
    p.face_move(1, -1);
    assert_eq!(p.facing, Facing::DownRight);
}

#[test]
fn generation_avoids_food_and_player() {
    let occupied = vec![Location2D { x: 1, y: 1 }];
    assert!(!check_allowed_generation(&occupied, 5, 5, 1, 1));
    assert!(!check_allowed_generation(&occupied, 5, 5, 5, 5));
    assert!(check_allowed_generation(&occupied, 5, 5, 2, 2));
}

#[test]
fn pickup_range() {
    let l = Location2D { x: 10, y: 10 };
    assert!(!in_pickup_range(l, 10, 10));
    assert!(in_pickup_range(l, 42, 10));
    assert!(!in_pickup_range(l, 42, 11));
    assert!(!in_pickup_range(l, i32::MIN, i32::MAX));
}

#[test]
fn generated_food_lies_in_the_area() {
    let mut t = FoodTracker::new();
    for _ in 0..20 {
        if let Some(l) = t.food_generate_location(0, 0, 6, 4) {
            assert!(l.x >= 1 && l.x < 6);
            assert!(l.y >= 1 && l.y < 4);
        }
    }
    let spots = t.iter_locations();
    for (i, a) in spots.iter().enumerate() {
        for b in &spots[i + 1..] {
            assert_ne!(a, b);
        }
    }
    assert_eq!(t.food_amount, 0);
}

#[test]
fn single_free_tile_is_found_then_full() {
    let mut t = FoodTracker::new();
    assert_eq!(t.food_generate_location(5, 5, 2, 2), Some(Location2D { x: 1, y: 1 }));
    assert_eq!(t.food_generate_location(5, 5, 2, 2), None);
    assert_eq!(t.iter_locations(), vec![Location2D { x: 1, y: 1 }]);
    let mut u = FoodTracker::new();
    assert_eq!(u.food_generate_location(1, 1, 2, 2), None);
}

#[test]
fn spawning_respects_timer_and_cap() {
    let mut t = FoodTracker::new();
    assert_eq!(t.spawn_food(false, 0, 0, 50, 50), None);
    for _ in 0..8 {
        t.spawn_food(true, 0, 0, 50, 50);
    }
    assert!(t.food_amount <= 5);
    assert_eq!(t.food_amount as usize, t.iter_locations().len());
    t.clear();
    assert_eq!(t.food_amount, 0);
    assert!(t.iter_locations().is_empty());
}

#[test]
fn pickup_takes_food_in_reach() {
    let mut t = FoodTracker::new();
    t.food_spawn_location = vec![
        Location2D { x: 10, y: 10 },
        Location2D { x: 12, y: 10 },
        Location2D { x: 100, y: 100 },
        Location2D { x: 10, y: 40 },
    ];
    t.food_amount = 4;
    let picked = t.food_pickup(10, 10);
    assert_eq!(picked, vec![Location2D { x: 12, y: 10 }, Location2D { x: 10, y: 40 }]);
    assert_eq!(t.iter_locations(), vec![Location2D { x: 10, y: 10 }, Location2D { x: 100, y: 100 }]);
    assert_eq!(t.food_amount, 2);
    t.food_amount = i32::MIN;
    t.food_spawn_location.push(Location2D { x: 11, y: 11 });
    let again = t.food_pickup(10, 10);
    assert_eq!(again.len(), 1);
    assert_eq!(t.food_amount, i32::MIN);
}

#[test]
fn first_allowed_candidate_is_taken() {
    let occupied = vec![Location2D { x: 1, y: 1 }, Location2D { x: 2, y: 2 }];
    let c = vec![(1, 1), (5, 5), (2, 2), (3, 4), (6, 6)];
    assert_eq!(first_allowed(&occupied, 5, 5, &c), Some(Location2D { x: 3, y: 4 }));
    assert_eq!(first_allowed(&occupied, 0, 0, &c), Some(Location2D { x: 5, y: 5 }));
    assert_eq!(first_allowed(&occupied, 5, 5, &vec![(1, 1), (5, 5)]), None);
    assert_eq!(first_allowed(&occupied, 5, 5, &vec![]), None);
}
