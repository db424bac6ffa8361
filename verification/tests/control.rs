use device_korpus::engine::driven::{pair_modes, select_modes, Injection, ModeDraw, MAX_MODES};
use device_korpus::engine::pluck::{body_fade_steps, DelayLine, BODY_FADE, BODY_LEN, MAX_DELAY};
use device_korpus::engine::rng::{lcg_draw, lcg_next};
use device_korpus::voice::{
    chunk_len, plan_driven, DrivenRouting, EngineKind, Exciter, Makeup, VoiceLifecycle, TAIL_SILENCE_BLOCKS,
};

fn reference_step(seed: u32) -> u32 {
    ((seed as u64 * 1664525 + 1013904223) % (1u64 << 32)) as u32
}

#[test]
fn exciter_from_index_maps_the_four_exciters() {
    assert_eq!(Exciter::from_index(0), Exciter::Strike);
    assert_eq!(Exciter::from_index(1), Exciter::Breath);
    assert_eq!(Exciter::from_index(2), Exciter::Bow);
    assert_eq!(Exciter::from_index(3), Exciter::Pick);
}

#[test]
fn exciter_from_index_falls_back_to_strike() {
    assert_eq!(Exciter::from_index(-1), Exciter::Strike);
    assert_eq!(Exciter::from_index(4), Exciter::Strike);
    assert_eq!(Exciter::from_index(i32::MAX), Exciter::Strike);
}

#[test]
fn engines_follow_the_exciter() {
    assert_eq!(EngineKind::for_exciter(Exciter::Strike), EngineKind::Driven);
    assert_eq!(EngineKind::for_exciter(Exciter::Breath), EngineKind::Driven);
    assert_eq!(EngineKind::for_exciter(Exciter::Bow), EngineKind::Bow);
    assert_eq!(EngineKind::for_exciter(Exciter::Pick), EngineKind::Pluck);
}

#[test]
fn lone_strike_carries_the_whole_level() {
    let plan = plan_driven(Exciter::Strike, 0, 6);
    assert_eq!(plan, DrivenRouting {
        breathing: false,
        serial: false,
        has_b: false,
        kind_a: Injection::Strike,
        kind_b: Injection::Strike,
        makeup: Makeup::Lone,
    });
}

#[test]
fn struck_pair_routes_in_parallel() {
    let plan = plan_driven(Exciter::Strike, 0, 1);
    assert!(plan.has_b && !plan.serial);
    assert_eq!(plan.kind_b, Injection::Strike);
    assert_eq!(plan.makeup, Makeup::Pair);
}

#[test]
fn serial_chain_rings_bank_b_tonally() {
    let plan = plan_driven(Exciter::Strike, 1, 3);
    assert!(plan.has_b && plan.serial && !plan.breathing);
    assert_eq!(plan.kind_a, Injection::Strike);
    assert_eq!(plan.kind_b, Injection::Tonal);
    assert_eq!(plan.makeup, Makeup::Serial);
}

#[test]
fn breath_injects_noise() {
    let plan = plan_driven(Exciter::Breath, 0, 1);
    assert!(plan.breathing && plan.has_b);
    assert_eq!(plan.kind_a, Injection::Noise);
    assert_eq!(plan.kind_b, Injection::Noise);
    assert_eq!(plan.makeup, Makeup::Breath);
    let serial = plan_driven(Exciter::Breath, 1, 0);
    assert_eq!(serial.kind_b, Injection::Tonal);
    assert_eq!(serial.makeup, Makeup::Breath);
}

#[test]
fn object_b_off_and_beyond_have_no_second_bank() {
    assert!(!plan_driven(Exciter::Strike, 0, 6).has_b);
    assert!(!plan_driven(Exciter::Strike, 0, 9).has_b);
    assert!(plan_driven(Exciter::Strike, 0, 5).has_b);
    assert!(plan_driven(Exciter::Strike, 0, -3).has_b);
    assert!(!plan_driven(Exciter::Strike, 2, 1).serial);
}

#[test]
fn lcg_next_known_values() {
    assert_eq!(lcg_next(0), 1013904223);
    assert_eq!(lcg_next(1), 1015568748);
    assert_eq!(lcg_next(u32::MAX), 1012239698);
    assert_eq!(lcg_next(0x2545f491), reference_step(0x2545f491));
}

#[test]
fn lcg_draw_keeps_the_high_24_bits() {
    assert_eq!(lcg_draw(0xffff_ffff), 0x00ff_ffff);
    assert_eq!(lcg_draw(0x1234_5678), 0x0012_3456);
    assert_eq!(lcg_draw(255), 0);
}

#[test]
fn select_modes_keeps_audible_modes_in_table_order() {
    let modes = select_modes(&vec![false, true, false, true, true]);
    let first = reference_step(0x2545f491);
    let second = reference_step(first);
    let third = reference_step(second);
    assert_eq!(modes, vec![
        ModeDraw { index: 2, odd: false, draw: first >> 8 },
        ModeDraw { index: 4, odd: false, draw: second >> 8 },
        ModeDraw { index: 5, odd: true, draw: third >> 8 },
    ]);
}

#[test]
fn select_modes_with_nothing_audible_is_empty() {
    assert!(select_modes(&vec![false; 10]).is_empty());
    assert!(select_modes(&Vec::new()).is_empty());
}

#[test]
fn select_modes_stops_when_the_bank_is_full() {
    let mut audible = vec![false; 3];
    audible.extend(vec![true; 100]);
    let modes = select_modes(&audible);
    assert_eq!(modes.len(), MAX_MODES);
    assert_eq!(modes[0].index, 4);
    assert_eq!(modes[MAX_MODES - 1].index, 3 + MAX_MODES);
    let mut seed = 0x2545f491u32;
    for mode in &modes {
        seed = reference_step(seed);
        assert_eq!(mode.draw, seed >> 8);
        assert_eq!(mode.odd, mode.index % 2 == 1);
    }
}

#[test]
fn pair_modes_takes_the_nearest_unclaimed_partner() {
    let distances = vec![vec![5, 3, 100], vec![3, 2, 9], vec![1, 1, 26]];
    let pairs = pair_modes(&distances, 3, 25);
    assert_eq!(pairs, vec![Some(1), Some(0), None]);
}

#[test]
fn pair_modes_breaks_ties_towards_the_first_mode() {
    assert_eq!(pair_modes(&vec![vec![4, 4, 4]], 3, 25), vec![Some(0)]);
    assert_eq!(pair_modes(&vec![vec![9, 4, 4]], 3, 25), vec![Some(1)]);
}

#[test]
fn pair_modes_respects_the_reach() {
    assert_eq!(pair_modes(&vec![vec![26, 40], vec![25, 30]], 2, 25), vec![None, Some(0)]);
    assert_eq!(pair_modes(&vec![vec![], vec![]], 0, 25), vec![None, None]);
}

#[test]
fn pairs_never_share_a_partner() {
    let distances: Vec<Vec<u32>> = (0..12u32)
        .map(|a| (0..5u32).map(|b| (a * 7 + b * 3) % 11).collect())
        .collect();
    let pairs = pair_modes(&distances, 5, 6);
    let chosen: Vec<usize> = pairs.iter().flatten().copied().collect();
    for (i, b) in chosen.iter().enumerate() {
        assert!(!chosen[i + 1..].contains(b));
    }
    for (a, pair) in pairs.iter().enumerate() {
        if let Some(b) = pair {
            assert!(distances[a][*b] <= 6);
        }
    }
}

#[test]
fn float_distance_bits_order_as_the_values() {
    let distances: Vec<f32> = vec![0.0, 0.5, 3.25, 24.999, 25.0, 25.001, 1.0e6];
    let reach = 25.0f32.to_bits();
    for window in distances.windows(2) {
        assert!(window[0].to_bits() < window[1].to_bits());
    }
    let row: Vec<u32> = vec![30.0f32.to_bits(), 12.5f32.to_bits(), 12.25f32.to_bits()];
    assert_eq!(pair_modes(&vec![row], 3, reach), vec![Some(2)]);
}

#[test]
fn delay_line_reads_back_what_was_written() {
    let mut line = DelayLine::new(0i32);
    assert_eq!(line.write_index(), 0);
    for value in 1..=10 {
        line.push(value);
    }
    assert_eq!(line.write_index(), 10);
    let cursor = line.write_index();
    // one step back is the last write, two steps back the one before
    assert_eq!(line.pair(cursor + MAX_DELAY - 2), (9, 10));
    assert_eq!(line.pair(cursor + MAX_DELAY - 10), (1, 2));
    assert_eq!(line.pair(cursor), (0, 0));
}

#[test]
fn delay_line_wraps_at_capacity() {
    let mut line = DelayLine::new(-1i64);
    for value in 0..(MAX_DELAY as i64 + 3) {
        line.push(value);
    }
    assert_eq!(line.write_index(), 3);
    assert_eq!(line.pair(MAX_DELAY - 1), (MAX_DELAY as i64 - 1, MAX_DELAY as i64));
    assert_eq!(line.pair(2), (MAX_DELAY as i64 + 2, 3));
    line.reset(7);
    assert_eq!(line.write_index(), 0);
    assert_eq!(line.pair(MAX_DELAY - 1), (7, 7));
}

#[test]
fn delay_line_carries_floats() {
    let mut line = DelayLine::new(0.0f32);
    line.push(0.25);
    line.push(-0.5);
    let cursor = line.write_index();
    assert_eq!(line.pair(cursor + MAX_DELAY - 2), (0.25, -0.5));
}

#[test]
fn body_fade_weights() {
    assert_eq!(body_fade_steps(0), BODY_FADE);
    assert_eq!(body_fade_steps(BODY_LEN - BODY_FADE), BODY_FADE);
    assert_eq!(body_fade_steps(BODY_LEN - BODY_FADE + 1), BODY_FADE - 1);
    assert_eq!(body_fade_steps(BODY_LEN - 1), 1);
    assert_eq!(body_fade_steps(BODY_LEN), 0);
    assert_eq!(body_fade_steps(usize::MAX), 0);
    let mut previous = body_fade_steps(0);
    for position in 0..BODY_LEN + 5 {
        let steps = body_fade_steps(position);
        assert!(steps <= previous);
        previous = steps;
    }
}

#[test]
fn new_voice_is_idle() {
    let voice = VoiceLifecycle::new();
    assert!(!voice.gate());
    assert!(!voice.is_active());
    assert!(!voice.is_sounding());
    assert_eq!(voice.engine(), EngineKind::Idle);
}

#[test]
fn note_on_builds_an_engine_only_when_it_changes() {
    let mut voice = VoiceLifecycle::new();
    assert!(voice.start(Exciter::Pick));
    assert!(voice.gate() && voice.is_active());
    assert_eq!(voice.engine(), EngineKind::Pluck);
    assert!(!voice.start(Exciter::Pick));
    assert!(voice.start(Exciter::Strike));
    assert!(!voice.start(Exciter::Breath));
    assert_eq!(voice.engine(), EngineKind::Driven);
    assert!(voice.start(Exciter::Bow));
}

#[test]
fn held_note_is_never_done() {
    let mut voice = VoiceLifecycle::new();
    voice.start(Exciter::Bow);
    for _ in 0..100 {
        assert!(!voice.finish_block(true));
    }
    assert!(voice.is_active() && voice.gate());
}

#[test]
fn release_frees_after_sixteen_quiet_blocks() {
    let mut voice = VoiceLifecycle::new();
    voice.start(Exciter::Strike);
    voice.stop();
    assert!(!voice.gate());
    assert!(voice.is_active());
    for _ in 0..TAIL_SILENCE_BLOCKS - 1 {
        assert!(!voice.finish_block(true));
        assert!(voice.is_active());
    }
    assert!(voice.finish_block(true));
    assert!(!voice.is_active());
    assert!(voice.finish_block(false));
}

#[test]
fn loud_block_restarts_the_silence_count() {
    let mut voice = VoiceLifecycle::new();
    voice.start(Exciter::Pick);
    voice.stop();
    for _ in 0..TAIL_SILENCE_BLOCKS - 1 {
        assert!(!voice.finish_block(true));
    }
    assert!(!voice.finish_block(false));
    for _ in 0..TAIL_SILENCE_BLOCKS - 1 {
        assert!(!voice.finish_block(true));
    }
    assert!(voice.finish_block(true));
}

#[test]
fn force_stop_frees_at_once() {
    let mut voice = VoiceLifecycle::new();
    voice.start(Exciter::Breath);
    voice.force_stop();
    assert!(!voice.gate() && !voice.is_active());
    assert!(voice.finish_block(false));
    assert!(!voice.is_active());
    assert_eq!(voice.engine(), EngineKind::Driven);
    voice.start(Exciter::Breath);
    assert!(voice.is_active());
}

#[test]
fn idle_voice_block_is_done() {
    let mut voice = VoiceLifecycle::new();
    assert!(voice.finish_block(false));
    assert!(!voice.is_active());
}

#[test]
fn default_voice_matches_new() {
    let voice = VoiceLifecycle::default();
    assert!(!voice.gate() && !voice.is_active());
    assert_eq!(voice.engine(), EngineKind::Idle);
}

#[test]
fn chunk_len_caps_at_chunk_max() {
    assert_eq!(chunk_len(0), 0);
    assert_eq!(chunk_len(64), 64);
    assert_eq!(chunk_len(128), 128);
    assert_eq!(chunk_len(129), 128);
    assert_eq!(chunk_len(usize::MAX), 128);
}
