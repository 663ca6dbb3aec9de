use engine::paint::{DrawArrays, Paint, PaintError, Painted};

fn bits(points: &[[f32; 2]]) -> Vec<[u32; 2]> {
    points.iter().map(|p| [p[0].to_bits(), p[1].to_bits()]).collect()
}

fn tri(points: [[f32; 2]; 3]) -> [[u32; 2]; 3] {
    [
        [points[0][0].to_bits(), points[0][1].to_bits()],
        [points[1][0].to_bits(), points[1][1].to_bits()],
        [points[2][0].to_bits(), points[2][1].to_bits()],
    ]
}

fn vertex(paint: &Paint, i: usize) -> f32 {
    f32::from_bits(paint.vertices()[i])
}

#[test]
fn create_two_triangles2d() {
    let mut paint = Paint::new(&0);
    let result = paint
        .create_triangles2d(&bits(&[
            [-0.5f32, -0.5f32],
            [0.5f32, -0.5f32],
            [0.0f32, 0.5f32],
            [-0.5f32, -0.5f32],
            [0.5f32, -0.5f32],
            [0.0f32, 0.5f32],
        ]))
        .unwrap();
    assert_eq!(vertex(&paint, 0), -0.5f32);
    assert_eq!(vertex(&paint, 1), -0.5f32);
    assert_eq!(vertex(&paint, 2), -0f32);
    assert_eq!(vertex(&paint, 3), 0.5f32);
    assert_eq!(vertex(&paint, 4), -0.5f32);
    assert_eq!(vertex(&paint, 5), -0f32);
    assert_eq!(vertex(&paint, 6), 0f32);
    assert_eq!(vertex(&paint, 7), 0.5f32);
    assert_eq!(vertex(&paint, 8), 0f32);
    assert_eq!(vertex(&paint, 9), -0.5f32);
    assert_eq!(vertex(&paint, 10), -0.5f32);
    assert_eq!(vertex(&paint, 11), -0f32);
    assert_eq!(vertex(&paint, 12), 0.5f32);
    assert_eq!(vertex(&paint, 13), -0.5f32);
    assert_eq!(vertex(&paint, 14), -0f32);
    assert_eq!(vertex(&paint, 15), 0f32);
    assert_eq!(vertex(&paint, 16), 0.5f32);
    assert_eq!(vertex(&paint, 17), 0f32);
    assert_eq!(result.start, 0);
    assert_eq!(result.length, 18);
}

#[test]
fn create_triangles2d() {
    let mut paint = Paint::new(&0);
    let result = paint
        .create_triangles2d(&bits(&[[-0.5f32, -0.5f32], [0.5f32, -0.5f32], [0.0f32, 0.5f32]]))
        .unwrap();
    assert_eq!(vertex(&paint, 0), -0.5f32);
    assert_eq!(vertex(&paint, 1), -0.5f32);
    assert_eq!(vertex(&paint, 2), -0f32);
    assert_eq!(vertex(&paint, 3), 0.5f32);
    assert_eq!(vertex(&paint, 4), -0.5f32);
    assert_eq!(vertex(&paint, 5), -0f32);
    assert_eq!(vertex(&paint, 6), 0f32);
    assert_eq!(vertex(&paint, 7), 0.5f32);
    assert_eq!(vertex(&paint, 8), 0f32);
    assert_eq!(result.start, 0);
    assert_eq!(result.length, 9);
}

#[test]
#[should_panic(expected = "expected 3 points for each triangle.")]
fn create_triangles2d_panic() {
    let mut paint = Paint::new(&0);
    if let Err(refusal) = paint.create_triangles2d(&bits(&[[0.5f32, -0.5f32], [0.0f32, 0.5f32]])) {
        panic!("{}", refusal.message());
    }
}

#[test]
#[should_panic(expected = "expected 3 points for each triangle.")]
fn draw_triangles2d_panic() {
    let mut paint = Paint::new(&0);
    if let Err(refusal) =
        paint.draw_triangles2d(&None, &bits(&[[0.5f32, -0.5f32], [0.0f32, 0.5f32]]))
    {
        panic!("{}", refusal.message());
    }
}

#[test]
fn create_triangle2d() {
    let mut paint = Paint::new(&0);
    let result =
        paint.create_triangle2d(&tri([[-0.5f32, -0.5f32], [0.5f32, -0.5f32], [0.0f32, 0.5f32]]));
    assert_eq!(vertex(&paint, 0), -0.5f32);
    assert_eq!(vertex(&paint, 1), -0.5f32);
    assert_eq!(vertex(&paint, 2), -0f32);
    assert_eq!(vertex(&paint, 3), 0.5f32);
    assert_eq!(vertex(&paint, 4), -0.5f32);
    assert_eq!(vertex(&paint, 5), -0f32);
    assert_eq!(vertex(&paint, 6), 0f32);
    assert_eq!(vertex(&paint, 7), 0.5f32);
    assert_eq!(vertex(&paint, 8), 0f32);
    assert_eq!(result.start, 0);
    assert_eq!(result.length, 9);
}

#[test]
fn create_two_triangle2d() {
    let mut paint = Paint::new(&0);
    paint.create_triangle2d(&tri([[-0.5f32, -0.5f32], [0.5f32, -0.5f32], [0.0f32, 0.5f32]]));
    let result =
        paint.create_triangle2d(&tri([[-0.5f32, -0.5f32], [0.5f32, -0.5f32], [0.0f32, 0.5f32]]));
    for i in 0..1 {
        assert_eq!(vertex(&paint, i + 0), -0.5f32);
        assert_eq!(vertex(&paint, i + 1), -0.5f32);
        assert_eq!(vertex(&paint, i + 2), -0f32);
        assert_eq!(vertex(&paint, i + 3), 0.5f32);
        assert_eq!(vertex(&paint, i + 4), -0.5f32);
        assert_eq!(vertex(&paint, i + 5), -0f32);
        assert_eq!(vertex(&paint, i + 6), 0f32);
        assert_eq!(vertex(&paint, i + 7), 0.5f32);
        assert_eq!(vertex(&paint, i + 8), 0f32);
    }
    assert_eq!(result.start, 9);
    assert_eq!(result.length, 9);
}

#[test]
fn draw_new_triangle2d() {
    let mut paint = Paint::new(&0);
    let result = paint
        .draw_triangle2d(
            &None,
            &tri([[-0.5f32, -0.5f32], [0.5f32, -0.5f32], [0.0f32, 0.5f32]]),
        )
        .unwrap();
    assert_eq!(vertex(&paint, 0), -0.5f32);
    assert_eq!(vertex(&paint, 1), -0.5f32);
    assert_eq!(vertex(&paint, 2), -0f32);
    assert_eq!(vertex(&paint, 3), 0.5f32);
    assert_eq!(vertex(&paint, 4), -0.5f32);
    assert_eq!(vertex(&paint, 5), -0f32);
    assert_eq!(vertex(&paint, 6), 0f32);
    assert_eq!(vertex(&paint, 7), 0.5f32);
    assert_eq!(vertex(&paint, 8), 0f32);
    assert_eq!(result.start, 0);
    assert_eq!(result.length, 9);
}

#[test]
fn draw_two_existing_triangles2d() {
    let mut paint = Paint::new(&0);
    let painted = paint
        .create_triangles2d(&bits(&[
            [-0.5f32, -0.5f32],
            [0.5f32, -0.5f32],
            [0.0f32, 0.5f32],
            [-0.5f32, -0.5f32],
            [0.5f32, -0.5f32],
            [0.0f32, 0.5f32],
        ]))
        .unwrap();
    let result = paint
        .draw_triangles2d(
            &Some(painted),
            &bits(&[
                [-1.5f32, -0.5f32],
                [0.5f32, -0.5f32],
                [0.0f32, 0.5f32],
                [-0.5f32, -0.5f32],
                [0.5f32, -0.5f32],
                [0.0f32, 1.5f32],
            ]),
        )
        .unwrap();
    assert_eq!(vertex(&paint, 0), -1.5f32);
    assert_eq!(vertex(&paint, 1), -0.5f32);
    assert_eq!(vertex(&paint, 2), -0f32);
    assert_eq!(vertex(&paint, 3), 0.5f32);
    assert_eq!(vertex(&paint, 4), -0.5f32);
    assert_eq!(vertex(&paint, 5), -0f32);
    assert_eq!(vertex(&paint, 6), 0f32);
    assert_eq!(vertex(&paint, 7), 0.5f32);
    assert_eq!(vertex(&paint, 8), 0f32);
    assert_eq!(vertex(&paint, 9), -0.5f32);
    assert_eq!(vertex(&paint, 10), -0.5f32);
    assert_eq!(vertex(&paint, 11), -0f32);
    assert_eq!(vertex(&paint, 12), 0.5f32);
    assert_eq!(vertex(&paint, 13), -0.5f32);
    assert_eq!(vertex(&paint, 14), -0f32);
    assert_eq!(vertex(&paint, 15), 0f32);
    assert_eq!(vertex(&paint, 16), 1.5f32);
    assert_eq!(vertex(&paint, 17), 0f32);
    assert_eq!(result.start, 0);
    assert_eq!(result.length, 18);
}

#[test]
fn draw_existing_triangles2d() {
    let mut paint = Paint::new(&0);
    let painted = paint
        .draw_triangles2d(
            &None,
            &bits(&[[-0.5f32, -0.5f32], [0.5f32, -0.5f32], [0.0f32, 0.5f32]]),
        )
        .unwrap();
    let result = paint
        .draw_triangles2d(
            &Some(painted),
            &bits(&[[-0.1f32, -0.5f32], [0.5f32, -0.5f32], [0.0f32, 0.1f32]]),
        )
        .unwrap();
    assert_eq!(vertex(&paint, 0), -0.1f32);
    assert_eq!(vertex(&paint, 1), -0.5f32);
    assert_eq!(vertex(&paint, 2), -0f32);
    assert_eq!(vertex(&paint, 3), 0.5f32);
    assert_eq!(vertex(&paint, 4), -0.5f32);
    assert_eq!(vertex(&paint, 5), -0f32);
    assert_eq!(vertex(&paint, 6), 0f32);
    assert_eq!(vertex(&paint, 7), 0.1f32);
    assert_eq!(vertex(&paint, 8), 0f32);
    assert_eq!(result.start, 0);
    assert_eq!(result.length, 9);
}

#[test]
fn draw_existing_triangle2d() {
    let mut paint = Paint::new(&0);
    let painted = paint
        .draw_triangle2d(
            &None,
            &tri([[-0.5f32, -0.5f32], [0.5f32, -0.5f32], [0.0f32, 0.5f32]]),
        )
        .unwrap();
    let result = paint
        .draw_triangle2d(
            &Some(painted),
            &tri([[-0.1f32, -0.5f32], [0.5f32, -0.5f32], [0.0f32, 0.1f32]]),
        )
        .unwrap();
    assert_eq!(vertex(&paint, 0), -0.1f32);
    assert_eq!(vertex(&paint, 1), -0.5f32);
    assert_eq!(vertex(&paint, 2), -0f32);
    assert_eq!(vertex(&paint, 3), 0.5f32);
    assert_eq!(vertex(&paint, 4), -0.5f32);
    assert_eq!(vertex(&paint, 5), -0f32);
    assert_eq!(vertex(&paint, 6), 0f32);
    assert_eq!(vertex(&paint, 7), 0.1f32);
    assert_eq!(vertex(&paint, 8), 0f32);
    assert_eq!(result.start, 0);
    assert_eq!(result.length, 9);
}

#[test]
fn draw_existing_second_triangle2d() {
    let mut paint = Paint::new(&0);
    paint
        .draw_triangle2d(
            &None,
            &tri([[-0.5f32, -0.5f32], [0.5f32, -0.5f32], [0.0f32, 0.5f32]]),
        )
        .unwrap();
    let painted = paint
        .draw_triangle2d(
            &None,
            &tri([[-0.5f32, -0.5f32], [0.5f32, -0.5f32], [0.0f32, 0.5f32]]),
        )
        .unwrap();
    let result = paint
        .draw_triangle2d(
            &Some(painted),
            &tri([[-0.1f32, -0.5f32], [0.5f32, -0.5f32], [0.0f32, 0.1f32]]),
        )
        .unwrap();
    assert_eq!(vertex(&paint, 9), -0.1f32);
    assert_eq!(vertex(&paint, 10), -0.5f32);
    assert_eq!(vertex(&paint, 11), -0f32);
    assert_eq!(vertex(&paint, 12), 0.5f32);
    assert_eq!(vertex(&paint, 13), -0.5f32);
    assert_eq!(vertex(&paint, 14), -0f32);
    assert_eq!(vertex(&paint, 15), 0f32);
    assert_eq!(vertex(&paint, 16), 0.1f32);
    assert_eq!(vertex(&paint, 17), 0f32);
    assert_eq!(result.start, 9);
    assert_eq!(result.length, 9);
}

#[test]
fn new_painter_is_empty_and_keeps_its_buffer_name() {
    let paint = Paint::new(&42);
    assert!(paint.vertices().is_empty());
    assert_eq!(paint.vertex_buffer_object(), 42);
}

#[test]
fn append_grows_by_three_coordinates_per_point() {
    let mut paint = Paint::new(&7);
    paint.create_triangle2d(&[[1, 2], [3, 4], [5, 6]]);
    let six: Vec<[u32; 2]> = (0..6u32).map(|i| [10 + i, 20 + i]).collect();
    let handle = paint.create_triangles2d(&six).unwrap();
    assert_eq!(paint.vertices().len(), 9 + 18);
    assert_eq!(handle, Painted { start: 9, length: 18 });
    assert_eq!(handle.count(), 6);
    assert_eq!(
        &paint.vertices()[9..],
        &[10, 20, 0, 11, 21, 0, 12, 22, 0, 13, 23, 0, 14, 24, 0, 15, 25, 0]
    );
    assert_eq!(&paint.vertices()[..9], &[1, 2, 0, 3, 4, 0, 5, 6, 0]);
    assert_eq!(paint.vertex_buffer_object(), 7);
}

#[test]
fn append_of_no_points_gives_an_empty_region() {
    let mut paint = Paint::new(&0);
    paint.create_triangle2d(&[[1, 2], [3, 4], [5, 6]]);
    let handle = paint.create_triangles2d(&[]).unwrap();
    assert_eq!(handle, Painted { start: 9, length: 0 });
    assert_eq!(handle.count(), 0);
    assert_eq!(paint.vertices().len(), 9);
    let again = paint.draw_triangles2d(&Some(handle), &[]).unwrap();
    assert_eq!(again, handle);
    assert_eq!(paint.vertices(), &[1, 2, 0, 3, 4, 0, 5, 6, 0]);
}

#[test]
fn append_refuses_points_that_are_not_whole_triangles() {
    for n in [1usize, 2, 4, 5, 7] {
        let mut paint = Paint::new(&0);
        paint.create_triangle2d(&[[1, 2], [3, 4], [5, 6]]);
        let points: Vec<[u32; 2]> = (0..n as u32).map(|i| [i, i]).collect();
        assert_eq!(paint.create_triangles2d(&points), Err(PaintError::InvalidGeometry));
        assert_eq!(paint.vertices(), &[1, 2, 0, 3, 4, 0, 5, 6, 0]);
        assert_eq!(paint.draw_triangles2d(&None, &points), Err(PaintError::InvalidGeometry));
        assert_eq!(paint.vertices().len(), 9);
    }
}

#[test]
fn draw_without_handle_is_an_append() {
    let points: Vec<[u32; 2]> = (0..6u32).map(|i| [100 + i, 200 + i]).collect();
    let mut appended = Paint::new(&3);
    appended.create_triangle2d(&[[1, 2], [3, 4], [5, 6]]);
    let mut drawn = Paint::new(&3);
    drawn.create_triangle2d(&[[1, 2], [3, 4], [5, 6]]);
    let by_append = appended.create_triangles2d(&points);
    let by_draw = drawn.draw_triangles2d(&None, &points);
    assert_eq!(by_append, by_draw);
    assert_eq!(by_draw, Ok(Painted { start: 9, length: 18 }));
    assert_eq!(appended.vertices(), drawn.vertices());
}

#[test]
fn update_overwrites_only_its_region() {
    let mut paint = Paint::new(&0);
    let first = paint.create_triangle2d(&[[1, 2], [3, 4], [5, 6]]);
    let second = paint.create_triangle2d(&[[7, 8], [9, 10], [11, 12]]);
    let third = paint.create_triangle2d(&[[13, 14], [15, 16], [17, 18]]);
    let answer = paint.draw_triangles2d(&Some(second), &[[70, 80], [90, 100], [110, 120]]);
    assert_eq!(answer, Ok(second));
    assert_eq!(paint.vertices().len(), 27);
    assert_eq!(
        paint.vertices(),
        &[
            1, 2, 0, 3, 4, 0, 5, 6, 0, 70, 80, 0, 90, 100, 0, 110, 120, 0, 13, 14, 0, 15, 16, 0,
            17, 18, 0
        ]
    );
    assert_eq!(first, Painted { start: 0, length: 9 });
    assert_eq!(third, Painted { start: 18, length: 9 });
}

#[test]
fn update_twice_with_the_same_points_changes_nothing_more() {
    let mut paint = Paint::new(&0);
    paint.create_triangle2d(&[[1, 2], [3, 4], [5, 6]]);
    let handle = paint.create_triangle2d(&[[7, 8], [9, 10], [11, 12]]);
    let points = [[21u32, 22u32], [23, 24], [25, 26]];
    let first = paint.draw_triangles2d(&Some(handle), &points);
    let once: Vec<u32> = paint.vertices().to_vec();
    let second = paint.draw_triangles2d(&Some(handle), &points);
    assert_eq!(first, second);
    assert_eq!(first, Ok(handle));
    assert_eq!(paint.vertices(), &once[..]);
    assert_eq!(&once[9..], &[21, 22, 0, 23, 24, 0, 25, 26, 0]);
}

#[test]
fn second_append_starts_where_the_first_ends() {
    let mut paint = Paint::new(&0);
    let six: Vec<[u32; 2]> = (0..6u32).map(|i| [i, i]).collect();
    let first = paint.create_triangles2d(&six).unwrap();
    let second = paint.create_triangles2d(&[[1, 1], [2, 2], [3, 3]]).unwrap();
    assert_eq!(first.start, 0);
    assert_eq!(second.start, first.length);
    assert_eq!(second.start, 3 * first.count());
    assert_eq!(second.start, 18);
    assert!(first.start + first.length <= second.start);
}

#[test]
fn update_refuses_a_different_number_of_points() {
    let mut paint = Paint::new(&0);
    let handle = paint.create_triangle2d(&[[1, 2], [3, 4], [5, 6]]);
    let six: Vec<[u32; 2]> = (0..6u32).map(|i| [i, i]).collect();
    assert_eq!(paint.draw_triangles2d(&Some(handle), &six), Err(PaintError::InvalidGeometry));
    assert_eq!(paint.draw_triangles2d(&Some(handle), &[]), Err(PaintError::InvalidGeometry));
    assert_eq!(
        paint.draw_triangles2d(&Some(handle), &[[1, 1], [2, 2]]),
        Err(PaintError::InvalidGeometry)
    );
    assert_eq!(paint.vertices(), &[1, 2, 0, 3, 4, 0, 5, 6, 0]);
    let two_triangles = Painted { start: 0, length: 18 };
    assert_eq!(
        paint.draw_triangle2d(&Some(two_triangles), &[[1, 1], [2, 2], [3, 3]]),
        Err(PaintError::InvalidGeometry)
    );
    assert_eq!(paint.vertices(), &[1, 2, 0, 3, 4, 0, 5, 6, 0]);
}

#[test]
fn update_refuses_a_handle_of_another_buffer() {
    let mut large = Paint::new(&0);
    large.create_triangle2d(&[[1, 2], [3, 4], [5, 6]]);
    let far = large.create_triangle2d(&[[1, 2], [3, 4], [5, 6]]);
    let mut small = Paint::new(&1);
    small.create_triangle2d(&[[7, 8], [9, 10], [11, 12]]);
    let points = [[0u32, 0u32], [0, 0], [0, 0]];
    assert_eq!(small.draw_triangles2d(&Some(far), &points), Err(PaintError::InvalidHandle));
    assert_eq!(small.draw_triangle2d(&Some(far), &points), Err(PaintError::InvalidHandle));
    assert_eq!(small.vertices(), &[7, 8, 0, 9, 10, 0, 11, 12, 0]);
    let overhanging = Painted { start: 3, length: 9 };
    assert_eq!(small.draw_triangles2d(&Some(overhanging), &points), Err(PaintError::InvalidHandle));
    let askew = Painted { start: 1, length: 3 };
    assert_eq!(small.draw_triangles2d(&Some(askew), &[]), Err(PaintError::InvalidGeometry));
    let askew = Painted { start: 1, length: 0 };
    assert_eq!(small.draw_triangles2d(&Some(askew), &[]), Err(PaintError::InvalidHandle));
    let huge = Painted { start: usize::MAX - 3, length: 9 };
    assert_eq!(small.draw_triangles2d(&Some(huge), &points), Err(PaintError::InvalidHandle));
    assert_eq!(small.vertices(), &[7, 8, 0, 9, 10, 0, 11, 12, 0]);
}

#[test]
fn refusals_have_their_sentences() {
    assert_eq!(PaintError::InvalidGeometry.message(), "expected 3 points for each triangle.");
    assert_eq!(PaintError::InvalidHandle.message(), "the handle does not belong to this buffer.");
}

#[test]
fn draw_call_counts_every_coordinate_of_the_buffer() {
    let mut paint = Paint::new(&5);
    assert_eq!(paint.set_draw_triangles(), Some(DrawArrays { first: 0, count: 0 }));
    paint.create_triangle2d(&[[1, 2], [3, 4], [5, 6]]);
    assert_eq!(paint.set_draw_triangles(), Some(DrawArrays { first: 0, count: 9 }));
    let six: Vec<[u32; 2]> = (0..6u32).map(|i| [i, i]).collect();
    let handle = paint.create_triangles2d(&six).unwrap();
    assert_eq!(paint.set_draw_triangles(), Some(DrawArrays { first: 0, count: 27 }));
    paint.draw_triangles2d(&Some(handle), &six).unwrap();
    assert_eq!(paint.set_draw_triangles(), Some(DrawArrays { first: 0, count: 27 }));
}

#[test]
fn upload_carries_the_whole_buffer_to_the_painters_device_buffer() {
    let mut paint = Paint::new(&5);
    let empty = paint.publish().unwrap();
    assert_eq!((empty.buffer, empty.size), (5, 0));
    assert!(empty.data.is_empty());
    paint.create_triangle2d(&tri([[-0.5f32, -0.5f32], [0.5f32, -0.5f32], [0.0f32, 0.5f32]]));
    let upload = paint.publish().unwrap();
    assert_eq!(upload.buffer, 5);
    assert_eq!(upload.size, 36);
    assert_eq!(upload.data, paint.vertices());
    let numbers: Vec<f32> = upload.data.iter().map(|bits| f32::from_bits(*bits)).collect();
    assert_eq!(numbers, vec![-0.5, -0.5, 0.0, 0.5, -0.5, 0.0, 0.0, 0.5, 0.0]);
}

#[test]
fn region_reads_back_what_a_handle_names() {
    let mut paint = Paint::new(&0);
    let first = paint.create_triangle2d(&[[1, 2], [3, 4], [5, 6]]);
    let second = paint.create_triangle2d(&[[7, 8], [9, 10], [11, 12]]);
    assert_eq!(paint.region(&first), Some(&[1u32, 2, 0, 3, 4, 0, 5, 6, 0][..]));
    assert_eq!(paint.region(&second), Some(&[7u32, 8, 0, 9, 10, 0, 11, 12, 0][..]));
    paint.draw_triangle2d(&Some(first), &[[21, 22], [23, 24], [25, 26]]).unwrap();
    assert_eq!(paint.region(&first), Some(&[21u32, 22, 0, 23, 24, 0, 25, 26, 0][..]));
    assert_eq!(paint.region(&second), Some(&[7u32, 8, 0, 9, 10, 0, 11, 12, 0][..]));
    assert_eq!(paint.region(&Painted { start: 18, length: 0 }), Some(&[][..]));
    assert_eq!(paint.region(&Painted { start: 12, length: 9 }), None);
    assert_eq!(paint.region(&Painted { start: 1, length: 3 }), None);
    assert_eq!(paint.region(&Painted { start: 0, length: 4 }), None);
    assert_eq!(paint.region(&Painted { start: usize::MAX - 3, length: 9 }), None);
}
