use neuramancy::glyph::{natural_connect, DefaultStroke, SliceStrategy, StrokeBits, UniformSlice};

fn bits(p: [f32; 3]) -> [u32; 3] {
    [p[0].to_bits(), p[1].to_bits(), p[2].to_bits()]
}

fn make_stroke(points: Vec<[f32; 3]>) -> StrokeBits {
    StrokeBits {
        points: points.into_iter().map(bits).collect(),
    }
}

#[test]
fn uniform_768_by_12() {
    let slicer = UniformSlice {
        dims_per_stroke: 12,
    };
    let embedding = vec![0.0f32; 768];
    let slices = slicer.slice(embedding.len());

    assert_eq!(slices.len(), 64);
    assert_eq!(slices[0], 0..12);
    assert_eq!(slices[63], 756..768);
}

#[test]
fn uniform_768_by_9() {
    let slicer = UniformSlice { dims_per_stroke: 9 };
    let embedding = vec![0.0f32; 768];
    let slices = slicer.slice(embedding.len());

    assert_eq!(slices.len(), 85);
}

#[test]
fn uniform_empty_embedding() {
    let slicer = UniformSlice::default();
    let embedding: Vec<f32> = Vec::new();
    let slices = slicer.slice(embedding.len());

    assert!(slices.is_empty());
}

#[test]
fn uniform_zero_dims_per_stroke() {
    let slicer = UniformSlice { dims_per_stroke: 0 };
    let embedding = [1.0f32, 2.0, 3.0];
    let slices = slicer.slice(embedding.len());

    assert!(slices.is_empty());
}

#[test]
fn uniform_smaller_than_one_stroke() {
    let slicer = UniformSlice {
        dims_per_stroke: 12,
    };
    let embedding = [1.0f32; 11];
    let slices = slicer.slice(embedding.len());

    assert!(slices.is_empty());
}

#[test]
fn natural_connect_empty_returns_none() {
    let current = make_stroke(vec![[0.0, 0.0, 0.0]]);
    let previous: Vec<StrokeBits> = vec![];
    let point = natural_connect(&current, &previous);

    assert_eq!(point, None);
}

#[test]
fn natural_connect_is_pure() {
    let current = make_stroke(vec![[1.0, 2.0, 3.0]]);
    let previous = vec![
        make_stroke(vec![[7.0, 8.0, 9.0], [10.0, 11.0, 12.0]]),
        make_stroke(vec![[13.0, 14.0, 15.0], [16.0, 17.0, 18.0]]),
        make_stroke(vec![[19.0, 20.0, 21.0], [22.0, 23.0, 24.0]]),
        make_stroke(vec![[25.0, 26.0, 27.0], [28.0, 29.0, 30.0]]),
    ];
    let a = natural_connect(&current, &previous);
    let b = natural_connect(&current, &previous);

    assert_eq!(a, b);
}

#[test]
fn natural_connect_uses_different_strokes() {
    let previous = vec![
        make_stroke(vec![[1.0, 0.0, 0.0]]),
        make_stroke(vec![[2.0, 0.0, 0.0]]),
        make_stroke(vec![[3.0, 0.0, 0.0]]),
        make_stroke(vec![[4.0, 0.0, 0.0]]),
    ];

    let mut found_strokes = std::collections::HashSet::new();

    for i in 0..100 {
        let current = make_stroke(vec![[i as f32 * 0.1, i as f32 * 0.2, i as f32 * 0.3]]);

        if let Some(point) = natural_connect(&current, &previous) {
            found_strokes.insert(f32::from_bits(point[0]) as i32);
        }
    }

    assert!(
        found_strokes.len() >= 2,
        "Should connect to at least 2 different strokes, found: {:?}",
        found_strokes
    );
}

#[test]
fn natural_connect_exact_choice() {
    // hash of a single point [0,0,1.0f32]: 0*31 + 0 + 0 + 0x3f800000
    let current = StrokeBits { points: vec![[0, 0, 0x3f80_0000]] };
    let hash: u64 = 0x3f80_0000;
    let previous = vec![
        StrokeBits { points: vec![[1, 1, 1], [2, 2, 2], [3, 3, 3]] },
        StrokeBits { points: vec![[4, 4, 4]] },
    ];
    let back = (hash as usize) % 2;
    let selected = &previous[previous.len() - 1 - back];
    let expected = selected.points[((hash >> 2) as usize) % selected.points.len()];
    assert_eq!(natural_connect(&current, &previous), Some(expected));
    assert_eq!(expected, [4, 4, 4]);
}

#[test]
fn natural_connect_empty_selected_falls_back_to_last() {
    let current = StrokeBits { points: vec![] };
    // hash 0: the most recent stroke is selected; it is empty, so is the fallback
    let previous = vec![StrokeBits { points: vec![[9, 9, 9]] }, StrokeBits { points: vec![] }];
    assert_eq!(natural_connect(&current, &previous), None);
    let previous = vec![StrokeBits { points: vec![[5, 5, 5], [6, 6, 6]] }];
    assert_eq!(natural_connect(&current, &previous), Some([5, 5, 5]));
}

#[test]
fn stroke_layout_twelve_values() {
    let input = [0.1f32, 0.2, 0.3, 0.4, 0.5, 0.6, 0.7, 0.8, 0.9, -0.5, 0.0, 0.5];
    let layout = DefaultStroke.layout(&input);
    assert_eq!(layout.points, vec![[0.1, 0.2, 0.3], [0.4, 0.5, 0.6], [0.7, 0.8, 0.9]]);
    assert_eq!(layout.colour, Some([-0.5, 0.0, 0.5]));
}

#[test]
fn stroke_layout_short_inputs() {
    let layout = DefaultStroke.layout(&[0.0f32, 0.0, 0.0]);
    assert!(layout.points.is_empty());
    assert_eq!(layout.colour, Some([0.0, 0.0, 0.0]));
    let layout = DefaultStroke.layout(&[0.5f32, 0.25]);
    assert!(layout.points.is_empty());
    assert_eq!(layout.colour, None);
    let layout = DefaultStroke.layout(&[1u8, 2, 3, 4, 5, 6, 7, 8]);
    assert_eq!(layout.points, vec![[1, 2, 3]]);
    assert_eq!(layout.colour, Some([6, 7, 8]));
}

#[test]
fn twelve_values_give_three_points_and_the_colour_values() {
    let input = [0.1f32, 0.2, 0.3, 0.4, 0.5, 0.6, 0.7, 0.8, 0.9, -0.5, 0.0, 0.5];
    let layout = DefaultStroke.layout(&input);
    assert_eq!(layout.points.len(), 3);
    assert_eq!(layout.points[0], [0.1, 0.2, 0.3]);
    assert_eq!(layout.points[1], [0.4, 0.5, 0.6]);
    assert_eq!(layout.points[2], [0.7, 0.8, 0.9]);
    assert_eq!(layout.colour, Some([-0.5, 0.0, 0.5]));
}

#[test]
fn nine_dim_gives_two_points() {
    let input = [0.1f32, 0.2, 0.3, 0.4, 0.5, 0.6, 0.0, 0.0, 0.0];
    let layout = DefaultStroke.layout(&input);
    assert_eq!(layout.points.len(), 2);
    assert_eq!(layout.points[0], [0.1, 0.2, 0.3]);
    assert_eq!(layout.points[1], [0.4, 0.5, 0.6]);
}

#[test]
fn six_dim_gives_one_point() {
    let input = [0.1f32, 0.2, 0.3, 0.0, 0.0, 0.0];
    let layout = DefaultStroke.layout(&input);
    assert_eq!(layout.points.len(), 1);
    assert_eq!(layout.points[0], [0.1, 0.2, 0.3]);
}

#[test]
fn fewer_than_six_no_points() {
    let layout = DefaultStroke.layout(&[0.0f32, 0.0, 0.0]);
    assert!(layout.points.is_empty());
}

#[test]
fn short_slice_colour_comes_from_its_last_three_values() {
    let layout = DefaultStroke.layout(&[0.9f32, 3.0, -3.0, 0.5]);
    assert!(layout.points.is_empty());
    assert_eq!(layout.colour, Some([3.0, -3.0, 0.5]));
}
