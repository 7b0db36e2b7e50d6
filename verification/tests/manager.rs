use better_osu::animations::{
    AnimationError, AnimationType, AnimationsManager, EasingType, Operation,
};

type Predicate = fn(&[f64]) -> bool;
type Manager = AnimationsManager<f64, Predicate>;

fn evaluate(op: Operation<f64>) -> f64 {
    match op {
        Operation::Ease { easing_type, elapsed_ms, duration_ms } => {
            let t = elapsed_ms as f64 / duration_ms as f64;
            match easing_type {
                EasingType::Linear => t,
                _ => panic!("curve not needed here"),
            }
        }
        Operation::Interpolate { start, end, progress } => start + (end - start) * progress,
        Operation::Accumulate { current, increase } => current + increase,
    }
}

fn never(_: &[f64]) -> bool {
    false
}

fn first_reaches_three(values: &[f64]) -> bool {
    values[0] >= 3.0
}

fn linear(duration_ms: u128, start: f64, end: f64) -> AnimationType<f64, Predicate> {
    AnimationType::Timed {
        duration_ms,
        start_values: vec![start],
        end_values: vec![end],
        easing_type: EasingType::Linear,
    }
}

fn counter(start: f64) -> AnimationType<f64, Predicate> {
    AnimationType::Conditional { condition: never, increase_per_tick: vec![1.0], start_values: vec![start] }
}

#[test]
fn new_manager_is_empty() {
    let manager = Manager::new();
    assert_eq!(manager.len(), 0);
    assert_eq!(manager.get(0), None);
    assert_eq!(manager.get(1), None);
}

#[test]
fn handles_count_up_from_one() {
    let mut manager = Manager::new();
    assert_eq!(manager.add_at(counter(0.0), 0), Ok(1));
    assert_eq!(manager.add_at(counter(10.0), 0), Ok(2));
    assert_eq!(manager.add_at(counter(20.0), 0), Ok(3));
    assert_eq!(manager.len(), 3);
    assert_eq!(manager.get(1), Some(&[0.0][..]));
    assert_eq!(manager.get(2), Some(&[10.0][..]));
    assert_eq!(manager.get(3), Some(&[20.0][..]));
    assert_eq!(manager.get(0), None);
    assert_eq!(manager.get(4), None);
}

#[test]
fn removed_handle_is_not_issued_again() {
    let mut manager = Manager::new();
    assert_eq!(manager.add_at(counter(0.0), 0), Ok(1));
    manager.remove(1);
    assert_eq!(manager.add_at(counter(5.0), 0), Ok(2));
    assert_eq!(manager.get(1), None);
    assert_eq!(manager.get(2), Some(&[5.0][..]));
}

#[test]
fn timed_animation_runs_ends_and_is_retired() {
    let mut manager = Manager::new();
    let handle = manager.add_at(linear(100, 0.0, 10.0), 1000).unwrap();
    manager.tick_at(1050, &evaluate);
    assert_eq!(manager.get(handle), Some(&[5.0][..]));
    manager.tick_at(1100, &evaluate);
    assert_eq!(manager.get(handle), Some(&[10.0][..]));
    manager.tick_at(1101, &evaluate);
    assert_eq!(manager.get(handle), Some(&[10.0][..]));
    manager.tick_at(1102, &evaluate);
    assert_eq!(manager.get(handle), None);
    assert_eq!(manager.len(), 0);
}

#[test]
fn timed_animation_sampled_late_snaps_to_its_end() {
    let mut manager = Manager::new();
    let handle = manager.add_at(linear(100, 0.0, 10.0), 0).unwrap();
    manager.tick_at(5000, &evaluate);
    assert_eq!(manager.get(handle), Some(&[10.0][..]));
    manager.tick_at(5016, &evaluate);
    assert_eq!(manager.get(handle), None);
}

#[test]
fn conditional_animation_is_visible_on_its_ending_tick() {
    let mut manager = Manager::new();
    let handle = manager
        .add_at(
            AnimationType::Conditional {
                condition: first_reaches_three,
                increase_per_tick: vec![1.0],
                start_values: vec![0.0],
            },
            0,
        )
        .unwrap();
    manager.tick_at(16, &evaluate);
    assert_eq!(manager.get(handle), Some(&[1.0][..]));
    manager.tick_at(32, &evaluate);
    assert_eq!(manager.get(handle), Some(&[2.0][..]));
    manager.tick_at(48, &evaluate);
    assert_eq!(manager.get(handle), Some(&[3.0][..]));
    manager.tick_at(64, &evaluate);
    assert_eq!(manager.get(handle), None);
}

#[test]
fn add_then_remove_then_tick() {
    let mut manager = Manager::new();
    let handle = manager.add_at(linear(100, 0.0, 10.0), 0).unwrap();
    manager.remove(handle);
    assert_eq!(manager.get(handle), None);
    manager.tick_at(50, &evaluate);
    assert_eq!(manager.get(handle), None);
    assert_eq!(manager.len(), 0);
}

#[test]
fn removing_an_unknown_handle_changes_nothing() {
    let mut manager = Manager::new();
    let handle = manager.add_at(counter(1.0), 0).unwrap();
    manager.remove(handle + 1);
    manager.remove(0);
    manager.remove(u32::MAX);
    assert_eq!(manager.len(), 1);
    assert_eq!(manager.get(handle), Some(&[1.0][..]));
    manager.remove(handle);
    manager.remove(handle);
    assert_eq!(manager.len(), 0);
}

#[test]
fn removal_keeps_the_other_animations() {
    let mut manager = Manager::new();
    for start in 0..10 {
        assert_eq!(manager.add_at(counter(start as f64), 0), Ok(start + 1));
    }
    manager.remove(1);
    manager.remove(5);
    manager.remove(10);
    assert_eq!(manager.len(), 7);
    for handle in 1..=10u32 {
        let expected = [(handle - 1) as f64];
        if handle == 1 || handle == 5 || handle == 10 {
            assert_eq!(manager.get(handle), None);
        } else {
            assert_eq!(manager.get(handle), Some(&expected[..]));
        }
    }
}

#[test]
fn tick_on_empty_manager_does_nothing() {
    let mut manager = Manager::new();
    manager.tick_at(0, &evaluate);
    manager.tick_at(1000, &evaluate);
    manager.tick(&evaluate);
    assert_eq!(manager.len(), 0);
    assert_eq!(manager.add_at(counter(0.0), 0), Ok(1));
}

#[test]
fn tick_advances_every_animation_once() {
    let mut manager = Manager::new();
    let first = manager.add_at(counter(0.0), 0).unwrap();
    let second = manager.add_at(linear(100, 0.0, 1.0), 0).unwrap();
    let third = manager.add_at(counter(7.0), 0).unwrap();
    manager.tick_at(25, &evaluate);
    assert_eq!(manager.get(first), Some(&[1.0][..]));
    assert_eq!(manager.get(second), Some(&[0.25][..]));
    assert_eq!(manager.get(third), Some(&[8.0][..]));
}

#[test]
fn tick_retires_only_what_had_ended() {
    let mut manager = Manager::new();
    let short = manager.add_at(linear(10, 0.0, 1.0), 0).unwrap();
    let long = manager.add_at(linear(1000, 0.0, 1.0), 0).unwrap();
    let endless = manager.add_at(counter(0.0), 0).unwrap();
    manager.tick_at(500, &evaluate);
    assert_eq!(manager.get(short), Some(&[1.0][..]));
    manager.tick_at(500, &evaluate);
    assert_eq!(manager.get(short), None);
    assert_eq!(manager.get(long), Some(&[0.5][..]));
    assert_eq!(manager.get(endless), Some(&[2.0][..]));
    assert_eq!(manager.len(), 2);
}

#[test]
fn faulty_description_is_refused_and_takes_no_handle() {
    let mut manager = Manager::new();
    assert_eq!(manager.add_at(linear(0, 0.0, 1.0), 0), Err(AnimationError::ZeroDuration));
    assert_eq!(
        manager.add_at(
            AnimationType::Timed {
                duration_ms: 5,
                start_values: vec![0.0],
                end_values: vec![],
                easing_type: EasingType::Linear,
            },
            0
        ),
        Err(AnimationError::LengthMismatch)
    );
    assert_eq!(
        manager.add_at(
            AnimationType::Timed {
                duration_ms: 5,
                start_values: vec![],
                end_values: vec![],
                easing_type: EasingType::Linear,
            },
            0
        ),
        Err(AnimationError::EmptyValues)
    );
    assert_eq!(
        manager.add_at(
            AnimationType::Conditional { condition: never, increase_per_tick: vec![], start_values: vec![0.0] },
            0
        ),
        Err(AnimationError::LengthMismatch)
    );
    assert_eq!(manager.len(), 0);
    assert_eq!(manager.add_at(counter(0.0), 0), Ok(1));
}

#[test]
fn faulty_description_does_not_trigger_renumbering() {
    let mut manager = Manager::with_last_id(u32::MAX - 1);
    assert_eq!(manager.add_at(counter(4.0), 0), Ok(u32::MAX));
    assert_eq!(manager.add_at(linear(0, 0.0, 1.0), 0), Err(AnimationError::ZeroDuration));
    assert_eq!(manager.get(u32::MAX), Some(&[4.0][..]));
    assert_eq!(manager.get(0), None);
}

#[test]
fn with_last_id_continues_the_count() {
    let mut manager = Manager::with_last_id(41);
    assert_eq!(manager.len(), 0);
    assert_eq!(manager.add_at(counter(0.0), 0), Ok(42));
}

#[test]
fn exhausted_counter_renumbers_the_survivors() {
    let mut manager = Manager::with_last_id(u32::MAX - 4);
    assert_eq!(manager.add_at(counter(10.0), 0), Ok(u32::MAX - 3));
    assert_eq!(manager.add_at(counter(20.0), 0), Ok(u32::MAX - 2));
    assert_eq!(manager.add_at(counter(30.0), 0), Ok(u32::MAX - 1));
    assert_eq!(manager.add_at(counter(40.0), 0), Ok(u32::MAX));
    manager.remove(u32::MAX - 2);
    // Three survivors take the handles 0, 1 and 2 in the order of their
    // former handles; the newcomer gets 4.
    assert_eq!(manager.add_at(counter(50.0), 0), Ok(4));
    assert_eq!(manager.len(), 4);
    assert_eq!(manager.get(0), Some(&[10.0][..]));
    assert_eq!(manager.get(1), Some(&[30.0][..]));
    assert_eq!(manager.get(2), Some(&[40.0][..]));
    assert_eq!(manager.get(3), None);
    assert_eq!(manager.get(4), Some(&[50.0][..]));
    assert_eq!(manager.get(u32::MAX - 3), None);
    assert_eq!(manager.get(u32::MAX - 1), None);
    assert_eq!(manager.get(u32::MAX), None);
    assert_eq!(manager.add_at(counter(60.0), 0), Ok(5));
    assert_eq!(manager.len(), 5);
}

#[test]
fn exhausted_counter_of_an_empty_manager_starts_over() {
    let mut manager = Manager::with_last_id(u32::MAX);
    assert_eq!(manager.add_at(counter(1.0), 0), Ok(1));
    assert_eq!(manager.add_at(counter(2.0), 0), Ok(2));
    assert_eq!(manager.get(1), Some(&[1.0][..]));
    assert_eq!(manager.get(2), Some(&[2.0][..]));
}

#[test]
fn renumbered_animations_keep_running() {
    let mut manager = Manager::with_last_id(u32::MAX - 1);
    let old = manager.add_at(linear(100, 0.0, 10.0), 0).unwrap();
    assert_eq!(old, u32::MAX);
    manager.tick_at(20, &evaluate);
    let new = manager.add_at(linear(100, 0.0, 10.0), 50).unwrap();
    assert_eq!(new, 2);
    manager.tick_at(60, &evaluate);
    assert_eq!(manager.get(0), Some(&[6.0][..]));
    assert_eq!(manager.get(new), Some(&[1.0][..]));
    assert_eq!(manager.get(old), None);
}

#[test]
fn renumbering_twice_keeps_handles_apart() {
    let mut manager = Manager::with_last_id(u32::MAX);
    assert_eq!(manager.add_at(counter(1.0), 0), Ok(1));
    let mut again = Manager::with_last_id(u32::MAX - 1);
    assert_eq!(again.add_at(counter(1.0), 0), Ok(u32::MAX));
    assert_eq!(again.add_at(counter(2.0), 0), Ok(2));
    assert_eq!(again.get(0), Some(&[1.0][..]));
    assert_eq!(again.get(1), None);
    assert_eq!(again.get(2), Some(&[2.0][..]));
    assert_eq!(again.len(), 2);
}

#[test]
fn many_animations_are_found_by_handle() {
    let mut manager = Manager::new();
    for i in 0..1000u32 {
        assert_eq!(manager.add_at(counter(i as f64), 0), Ok(i + 1));
    }
    for i in (0..1000u32).step_by(3) {
        manager.remove(i + 1);
    }
    manager.tick_at(0, &evaluate);
    for i in 0..1000u32 {
        let expected = [i as f64 + 1.0];
        if i % 3 == 0 {
            assert_eq!(manager.get(i + 1), None);
        } else {
            assert_eq!(manager.get(i + 1), Some(&expected[..]));
        }
    }
    assert_eq!(manager.get(0), None);
    assert_eq!(manager.get(1001), None);
}

#[test]
fn add_and_tick_read_the_clock_themselves() {
    let mut manager = Manager::new();
    let handle = manager.add(counter(0.0)).unwrap();
    assert_eq!(handle, 1);
    manager.tick(&evaluate);
    manager.tick(&evaluate);
    assert_eq!(manager.get(handle), Some(&[2.0][..]));
    let timed = manager.add(linear(3_600_000, 2.0, 2.0)).unwrap();
    manager.tick(&evaluate);
    assert_eq!(manager.get(timed), Some(&[2.0][..]));
    assert_eq!(manager.add(linear(0, 0.0, 1.0)), Err(AnimationError::ZeroDuration));
}

#[test]
fn manager_agrees_with_a_plain_model_over_many_operations() {
    // The model: every live animation as (handle, value, had_ended), in the
    // order of the handles; animations count up and end at ten.
    fn reaches_ten(values: &[f64]) -> bool {
        values[0] >= 10.0
    }
    let mut model: Vec<(u32, f64, bool)> = Vec::new();
    let mut last_id = u32::MAX - 40;
    let mut manager = Manager::with_last_id(last_id);
    let mut seed: u64 = 0x2545_f491_4f6c_dd1d;
    for _ in 0..5000 {
        seed = seed.wrapping_mul(6364136223846793005).wrapping_add(1442695040888963407);
        let choice = (seed >> 33) % 4;
        let pick = (seed >> 40) as usize;
        match choice {
            0 => {
                let start = ((seed >> 50) % 10) as f64;
                let handle = manager
                    .add_at(
                        AnimationType::Conditional {
                            condition: reaches_ten,
                            increase_per_tick: vec![1.0],
                            start_values: vec![start],
                        },
                        0,
                    )
                    .unwrap();
                if last_id == u32::MAX {
                    for (rank, entry) in model.iter_mut().enumerate() {
                        entry.0 = rank as u32;
                    }
                    last_id = model.len() as u32;
                }
                last_id += 1;
                assert_eq!(handle, last_id);
                model.push((handle, start, false));
            }
            1 => {
                let handle = if model.is_empty() || pick % 5 == 0 {
                    (seed >> 20) as u32
                } else {
                    model[pick % model.len()].0
                };
                manager.remove(handle);
                model.retain(|entry| entry.0 != handle);
            }
            _ => {
                manager.tick_at(0, &evaluate);
                model.retain(|entry| !entry.2);
                for entry in model.iter_mut() {
                    entry.1 += 1.0;
                    entry.2 = entry.1 >= 10.0;
                }
            }
        }
        assert_eq!(manager.len(), model.len());
        for entry in model.iter() {
            let expected = [entry.1];
            assert_eq!(manager.get(entry.0), Some(&expected[..]));
        }
        let probe = (seed >> 13) as u32;
        if !model.iter().any(|entry| entry.0 == probe) {
            assert_eq!(manager.get(probe), None);
        }
    }
    // The counter was exhausted on the way and started over.
    assert!(last_id < 5000);
}
