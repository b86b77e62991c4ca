use chaos_game::accumulator::{Accumulator, Increment, Subtractive};
use chaos_game::affine::{AffineMap, WeightedAffineMap};
use chaos_game::driver::{draw_image_cpu, Configuration, ConfigurationError};
use chaos_game::engine::{iterate, replay, visit, Contraction, Step, StepFunction};

fn square() -> Vec<[usize; 2]> {
    vec![[128, 128], [128, 384], [384, 384], [384, 128]]
}

fn fern() -> WeightedAffineMap {
    WeightedAffineMap {
        bounds: [3, 200, 228],
        maps: [
            AffineMap { a: 0, b: 0, c: 1024, d: 0, e: 1600, f: 0 },
            AffineMap { a: 8500, b: 400, c: 150, d: -400, e: 8500, f: 300 },
            AffineMap { a: 2000, b: -2600, c: 600, d: 2300, e: 2200, f: 300 },
            AffineMap { a: -1500, b: 2800, c: 400, d: 2600, e: 2400, f: 100 },
        ],
        scale: 10_000,
    }
}

fn game(iterations: usize, accumulator: Accumulator) -> Configuration {
    Configuration {
        resolution: 512,
        iterations,
        start: [256, 256],
        step: StepFunction::RandomVertexContraction(square()),
        accumulator,
        fill: None,
    }
}

fn fern_run(iterations: usize) -> Configuration {
    Configuration {
        resolution: 2048,
        iterations,
        start: [1024, 0],
        step: StepFunction::WeightedAffineMap(fern()),
        accumulator: Accumulator::SingleChannelIncrement,
        fill: None,
    }
}

#[test]
fn four_steps_round_the_square() {
    let buffer = game(4, Accumulator::SingleChannelIncrement).render_with(&vec![0, 1, 2, 3]).unwrap();
    assert_eq!((buffer.width, buffer.height, buffer.stride, buffer.channels), (512, 512, 512, 1));
    assert_eq!(buffer.data.len(), 512 * 512);
    let visited = [[192usize, 192], [160, 288], [272, 336], [328, 232]];
    let mut expected = vec![0u8; 512 * 512];
    for p in visited {
        expected[p[0] * 512 + p[1]] = 1;
    }
    assert_eq!(buffer.data, expected);
}

#[test]
fn the_start_is_not_visited() {
    let buffer = game(0, Accumulator::SingleChannelIncrement).render_with(&Vec::new()).unwrap();
    assert_eq!(buffer.data, vec![0u8; 512 * 512]);
    let buffer = game(1, Accumulator::SingleChannelIncrement).render_with(&vec![2]).unwrap();
    assert_eq!(buffer.data[256 * 512 + 256], 0);
    assert_eq!(buffer.data[320 * 512 + 320], 1);
}

#[test]
fn four_steps_on_a_lit_raster() {
    let buffer = game(4, Accumulator::SingleChannelDecrement).render_with(&vec![0, 1, 2, 3]).unwrap();
    let visited = [[192usize, 192], [160, 288], [272, 336], [328, 232]];
    let mut expected = vec![255u8; 512 * 512];
    for p in visited {
        expected[p[0] * 512 + p[1]] = 254;
    }
    assert_eq!(buffer.data, expected);
}

#[test]
fn four_steps_on_three_channels() {
    let buffer =
        game(4, Accumulator::MultiChannelSubtractive).render_with(&vec![0, 1, 2, 3]).unwrap();
    assert_eq!((buffer.width, buffer.height, buffer.stride, buffer.channels), (512, 512, 1536, 3));
    let visited = [[192usize, 192], [160, 288], [272, 336], [328, 232]];
    let mut expected = vec![255u8; 512 * 512 * 3];
    for p in visited {
        for c in 0..3 {
            expected[p[0] * 1536 + p[1] * 3 + c] = 254;
        }
    }
    assert_eq!(buffer.data, expected);
}

#[test]
fn a_pixel_visited_again_and_again_saturates() {
    let config = Configuration {
        resolution: 8,
        iterations: 300,
        start: [5, 5],
        step: StepFunction::RandomVertexContraction(vec![[5, 5]]),
        accumulator: Accumulator::SingleChannelIncrement,
        fill: None,
    };
    let buffer = config.render().unwrap();
    let mut expected = vec![0u8; 64];
    expected[5 * 8 + 5] = 255;
    assert_eq!(buffer.data, expected);
    let config = Configuration { accumulator: Accumulator::MultiChannelSubtractive, ..config };
    let buffer = config.render().unwrap();
    let mut expected = vec![255u8; 64 * 3];
    for c in 0..3 {
        expected[5 * 24 + 5 * 3 + c] = 0;
    }
    assert_eq!(buffer.data, expected);
}

#[test]
fn equal_draws_give_equal_rasters() {
    let mut rng = fastrand::Rng::with_seed(11);
    let draws: Vec<usize> = (0..5000).map(|_| rng.usize(0..4)).collect();
    for accumulator in [
        Accumulator::SingleChannelIncrement,
        Accumulator::SingleChannelDecrement,
        Accumulator::MultiChannelSubtractive,
    ] {
        let first = game(5000, accumulator).render_with(&draws).unwrap();
        let second = game(5000, accumulator).render_with(&draws).unwrap();
        assert_eq!(first.data, second.data);
        assert_eq!(first.data.iter().filter(|v| **v != accumulator.background_value()).count() > 100, true);
    }
    let bytes: Vec<usize> = (0..5000).map(|_| rng.usize(0..256)).collect();
    let first = fern_run(5000).render_with(&bytes).unwrap();
    let second = fern_run(5000).render_with(&bytes).unwrap();
    assert_eq!(first.data, second.data);
}

#[test]
fn equal_seeds_give_equal_rasters() {
    fastrand::seed(42);
    let first = game(3000, Accumulator::SingleChannelIncrement).render().unwrap();
    fastrand::seed(42);
    let second = game(3000, Accumulator::SingleChannelIncrement).render().unwrap();
    assert_eq!(first.data, second.data);
    fastrand::seed(42);
    let first = fern_run(3000).render().unwrap();
    fastrand::seed(42);
    let second = fern_run(3000).render().unwrap();
    assert_eq!(first.data, second.data);
}

#[test]
fn a_run_on_fresh_draws_is_the_replay_of_those_draws() {
    fastrand::seed(7);
    let drawn = game(2000, Accumulator::SingleChannelIncrement).render().unwrap();
    fastrand::seed(7);
    let draws: Vec<usize> = (0..2000).map(|_| fastrand::usize(0..4)).collect();
    let replayed = game(2000, Accumulator::SingleChannelIncrement).render_with(&draws).unwrap();
    assert_eq!(drawn.data, replayed.data);
    let visits: usize = drawn.data.iter().map(|v| *v as usize).sum();
    assert_eq!(visits, 2000);
}

#[test]
fn every_step_of_a_run_is_counted_once() {
    fastrand::seed(5);
    let buffer = fern_run(10_000).render().unwrap();
    assert_eq!((buffer.width, buffer.height, buffer.stride, buffer.channels), (2048, 2048, 2048, 1));
    let visits: usize = buffer.data.iter().map(|v| *v as usize).sum();
    assert!(buffer.data.iter().all(|v| *v < 255));
    assert_eq!(visits, 10_000);
}

#[test]
fn the_fern_replays_its_bytes() {
    let buffer = fern_run(3).render_with(&vec![100, 0, 210]).unwrap();
    // (1024, 0) -> (1020, 260) -> (1024, 41) -> (794, 544)
    let mut expected = vec![0u8; 2048 * 2048];
    for p in [[1020usize, 260], [1024, 41], [794, 544]] {
        expected[p[0] * 2048 + p[1]] = 1;
    }
    assert_eq!(buffer.data, expected);
}

#[test]
fn the_polygon_is_lit_before_the_run() {
    let config = Configuration {
        resolution: 16,
        iterations: 0,
        start: [8, 8],
        step: StepFunction::RandomVertexContraction(vec![[8, 8]]),
        accumulator: Accumulator::SingleChannelIncrement,
        fill: Some(vec![[4, 4], [4, 12], [12, 12], [12, 4]]),
    };
    let buffer = config.init().unwrap();
    for x in 0..16usize {
        for y in 0..16usize {
            let lit = (4..=12).contains(&x) && (4..=12).contains(&y);
            assert_eq!(buffer.data[x * 16 + y], if lit { 255 } else { 0 });
        }
    }
    assert_eq!(config.render().unwrap().data, buffer.data);
}

#[test]
fn a_fresh_raster_is_at_the_background() {
    let buffer = game(9, Accumulator::SingleChannelIncrement).init().unwrap();
    assert_eq!(buffer.data, vec![0u8; 512 * 512]);
    let buffer = game(9, Accumulator::SingleChannelDecrement).init().unwrap();
    assert_eq!(buffer.data, vec![255u8; 512 * 512]);
    let buffer = game(9, Accumulator::MultiChannelSubtractive).init().unwrap();
    assert_eq!(buffer.data, vec![255u8; 512 * 512 * 3]);
}

#[test]
fn a_good_configuration_passes() {
    assert_eq!(game(4, Accumulator::SingleChannelIncrement).validate(), Ok(()));
    assert_eq!(fern_run(4).validate(), Ok(()));
}

#[test]
fn resolution_zero_is_refused() {
    let config = Configuration { resolution: 0, ..game(4, Accumulator::SingleChannelIncrement) };
    assert_eq!(config.validate(), Err(ConfigurationError::ZeroResolution));
    assert_eq!(config.render().err(), Some(ConfigurationError::ZeroResolution));
    assert_eq!(config.render_with(&vec![0; 4]).err(), Some(ConfigurationError::ZeroResolution));
    assert_eq!(config.init().err(), Some(ConfigurationError::ZeroResolution));
}

#[test]
fn a_canvas_beyond_memory_is_refused() {
    let config = Configuration {
        resolution: usize::MAX,
        start: [0, 0],
        ..game(4, Accumulator::SingleChannelIncrement)
    };
    assert_eq!(config.validate(), Err(ConfigurationError::CanvasTooLarge));
    let config = Configuration {
        resolution: (usize::MAX / 3) + 1,
        start: [0, 0],
        ..game(4, Accumulator::MultiChannelSubtractive)
    };
    assert_eq!(config.validate(), Err(ConfigurationError::CanvasTooLarge));
    assert_eq!(config.render().err(), Some(ConfigurationError::CanvasTooLarge));
}

#[test]
fn a_start_off_the_canvas_is_refused() {
    let config = Configuration { start: [512, 0], ..game(4, Accumulator::SingleChannelIncrement) };
    assert_eq!(config.validate(), Err(ConfigurationError::StartOffCanvas));
    let config = Configuration { start: [0, 512], ..game(4, Accumulator::SingleChannelIncrement) };
    assert_eq!(config.validate(), Err(ConfigurationError::StartOffCanvas));
    let config = Configuration { start: [511, 511], ..game(4, Accumulator::SingleChannelIncrement) };
    assert_eq!(config.validate(), Ok(()));
}

#[test]
fn a_polygon_of_two_vertices_is_not_filled() {
    let config = Configuration {
        fill: Some(vec![[1, 1], [9, 9]]),
        ..game(4, Accumulator::SingleChannelIncrement)
    };
    assert_eq!(config.validate(), Err(ConfigurationError::DegeneratePolygon));
    let config = Configuration {
        fill: Some(vec![[1, 1], [1, 9], [9, 9]]),
        ..game(4, Accumulator::SingleChannelIncrement)
    };
    assert_eq!(config.validate(), Ok(()));
}

#[test]
fn a_game_without_points_is_refused() {
    let config = Configuration {
        step: StepFunction::RandomVertexContraction(Vec::new()),
        ..game(4, Accumulator::SingleChannelIncrement)
    };
    assert_eq!(config.validate(), Err(ConfigurationError::NoVertices));
    assert_eq!(config.render().err(), Some(ConfigurationError::NoVertices));
}

#[test]
fn a_point_off_the_canvas_is_refused() {
    let config = Configuration {
        step: StepFunction::RandomVertexContraction(vec![[0, 0], [511, 511], [3, 512]]),
        ..game(4, Accumulator::SingleChannelIncrement)
    };
    assert_eq!(config.validate(), Err(ConfigurationError::VertexOffCanvas));
    let config = Configuration {
        step: StepFunction::RandomVertexContraction(vec![[0, 0], [511, 511], [3, 511]]),
        ..game(4, Accumulator::SingleChannelIncrement)
    };
    assert_eq!(config.validate(), Ok(()));
}

#[test]
fn a_scale_of_zero_is_refused() {
    let mut system = fern();
    system.scale = 0;
    let config = Configuration { step: StepFunction::WeightedAffineMap(system), ..fern_run(4) };
    assert_eq!(config.validate(), Err(ConfigurationError::ZeroScale));
}

#[test]
fn buckets_out_of_order_are_refused() {
    let mut system = fern();
    system.bounds = [200, 3, 228];
    let config = Configuration { step: StepFunction::WeightedAffineMap(system), ..fern_run(4) };
    assert_eq!(config.validate(), Err(ConfigurationError::BucketsOutOfOrder));
}

#[test]
fn a_map_that_leaves_the_canvas_is_refused() {
    let mut system = fern();
    system.maps[3] = AffineMap { a: 8500, b: 240, c: -28, d: -667, e: 8500, f: 283 };
    let config = Configuration { step: StepFunction::WeightedAffineMap(system), ..fern_run(4) };
    assert_eq!(config.validate(), Err(ConfigurationError::MapLeavesCanvas));
    assert_eq!(config.render().err(), Some(ConfigurationError::MapLeavesCanvas));
    let config = Configuration { resolution: 2047, ..fern_run(4) };
    assert_eq!(config.validate(), Ok(()));
    let config = Configuration { resolution: 1024, start: [0, 0], ..fern_run(4) };
    assert_eq!(config.validate(), Err(ConfigurationError::MapLeavesCanvas));
}

#[test]
fn faults_are_told_in_their_order() {
    let mut system = fern();
    system.scale = 0;
    system.bounds = [9, 8, 7];
    let config = Configuration {
        resolution: 16,
        iterations: 1,
        start: [16, 16],
        step: StepFunction::WeightedAffineMap(system),
        accumulator: Accumulator::SingleChannelIncrement,
        fill: Some(Vec::new()),
    };
    assert_eq!(config.validate(), Err(ConfigurationError::StartOffCanvas));
    let config = Configuration { start: [0, 0], ..config };
    assert_eq!(config.validate(), Err(ConfigurationError::DegeneratePolygon));
    let config = Configuration { fill: None, ..config };
    assert_eq!(config.validate(), Err(ConfigurationError::ZeroScale));
    let config = Configuration { resolution: 0, ..config };
    assert_eq!(config.validate(), Err(ConfigurationError::ZeroResolution));
}

#[test]
fn the_game_on_a_frame_lowers_three_bytes_a_step() {
    fastrand::seed(8);
    let resolution = 64usize;
    let stride = 200usize;
    let mut image = vec![255u8; resolution * stride];
    let points: Vec<[usize; 2]> = vec![[3, 32], [60, 3], [60, 60]];
    draw_image_cpu(&mut image, 100, resolution, stride, &points);
    let lowered: usize = image.iter().map(|v| (255 - *v) as usize).sum();
    assert_eq!(lowered, 300);
    for x in 0..resolution {
        for b in 3 * resolution..stride {
            assert_eq!(image[x * stride + b], 255);
        }
        for y in 0..resolution {
            let p = x * stride + 3 * y;
            assert_eq!(image[p], image[p + 1]);
            assert_eq!(image[p], image[p + 2]);
        }
    }
}

#[test]
fn the_game_on_a_frame_is_the_run_from_the_centre() {
    let points = square();
    fastrand::seed(99);
    let mut image = vec![255u8; 512 * 1536];
    draw_image_cpu(&mut image, 1000, 512, 1536, &points);
    fastrand::seed(99);
    let config = game(1000, Accumulator::MultiChannelSubtractive);
    assert_eq!(config.render().unwrap().data, image);
}

#[test]
fn no_step_leaves_the_frame_as_it_was() {
    let mut image = vec![17u8; 12];
    draw_image_cpu(&mut image, 0, 2, 6, &vec![[1, 1]]);
    assert_eq!(image, vec![17u8; 12]);
}

#[test]
fn one_step_moves_then_visits() {
    let points = square();
    let step = Contraction { points: &points };
    let mut image = vec![0u8; 512 * 512];
    let next = visit(&step, &Increment, &mut image, 512, 512, [256, 256], 1);
    assert_eq!(next, [192, 320]);
    assert_eq!(image[192 * 512 + 320], 1);
    assert_eq!(image.iter().map(|v| *v as usize).sum::<usize>(), 1);
}

#[test]
fn a_replay_ends_where_its_last_step_led() {
    let points = square();
    let step = Contraction { points: &points };
    let mut image = vec![255u8; 512 * 1536];
    let end = replay(&step, &Subtractive, &mut image, 512, 1536, [256, 256], &vec![0, 1, 2, 3]);
    assert_eq!(end, [328, 232]);
    let end = replay(&step, &Subtractive, &mut image, 512, 1536, [256, 256], &Vec::new());
    assert_eq!(end, [256, 256]);
}

#[test]
fn a_run_ends_on_the_canvas() {
    fastrand::seed(6);
    let system = fern();
    let mut image = vec![0u8; 2048 * 2048];
    let end = iterate(&system, &Increment, &mut image, 2048, 2048, [0, 0], 500);
    assert!(end[0] < 2048 && end[1] < 2048);
    assert_eq!(image.iter().map(|v| *v as usize).sum::<usize>(), 500);
}

#[test]
fn draws_of_the_step_functions_are_in_range() {
    let points = square();
    let step = Contraction { points: &points };
    let mut seen = [false; 4];
    for _ in 0..1000 {
        seen[step.draw()] = true;
    }
    assert_eq!(seen, [true; 4]);
    let system = fern();
    for _ in 0..1000 {
        assert!(system.draw() < 256);
    }
}
