use pore_patch::aggregate::{global_patch_size, merge_extents};
use pore_patch::augment::{aug_img, Direction};
use pore_patch::extent::{find_extents, total_objects, Extent};
use pore_patch::patch::cut_patch;
use pore_patch::schedule::{file_index, format_index, partition};
use pore_patch::writer::flatten_flipped;

fn grid3() -> Vec<Vec<f32>> {
    vec![
        vec![1.0, 2.0, 3.0],
        vec![4.0, 5.0, 6.0],
        vec![7.0, 8.0, 9.0],
    ]
}

#[test]
fn find_extents_two_pixel_diagonal() {
    // 4x4 mask, background 0, label 1 at (1,1) and (2,2).
    let mask: Vec<u16> = vec![
        0, 0, 0, 0,
        0, 1, 0, 0,
        0, 0, 1, 0,
        0, 0, 0, 0,
    ];
    let extents = find_extents(&mask, 4, 4, 1, 2);
    assert_eq!(extents, vec![(1, 1, 1, 1, 1)]);
}

#[test]
fn find_extents_absent_label_is_degenerate() {
    let mask: Vec<u16> = vec![0, 0, 0, 0, 0, 0];
    let extents = find_extents(&mask, 2, 3, 1, 3);
    assert_eq!(extents, vec![(0, 0, 3, 2, 1), (0, 0, 3, 2, 2)]);
}

#[test]
fn find_extents_single_pixel_has_zero_span() {
    let mask: Vec<u16> = vec![
        0, 0, 0,
        0, 0, 2,
        0, 0, 0,
    ];
    let extents = find_extents(&mask, 3, 3, 2, 3);
    assert_eq!(extents, vec![(0, 0, 2, 1, 2)]);
}

#[test]
fn find_extents_bounds_contain_all_pixels() {
    // Label 3 occupies an L-shape; the box must cover every pixel of it.
    let mask: Vec<u16> = vec![
        0, 3, 0, 0,
        0, 3, 0, 0,
        0, 3, 3, 0,
        0, 0, 0, 0,
    ];
    let extents = find_extents(&mask, 4, 4, 3, 4);
    let (w, h, min_x, min_y, id) = extents[0];
    assert_eq!(id, 3);
    assert_eq!((min_x, min_y), (1, 0));
    assert_eq!((w, h), (1, 2));
    for y in 0..4usize {
        for x in 0..4usize {
            if mask[y * 4 + x] == 3 {
                assert!(min_x <= x && x <= min_x + w);
                assert!(min_y <= y && y <= min_y + h);
            }
        }
    }
}

#[test]
fn find_extents_ascending_id_order() {
    let mask: Vec<u16> = vec![
        2, 0,
        0, 1,
    ];
    let extents = find_extents(&mask, 2, 2, 1, 3);
    assert_eq!(extents, vec![(0, 0, 1, 1, 1), (0, 0, 0, 0, 2)]);
}

#[test]
fn total_objects_is_mask_maximum() {
    assert_eq!(total_objects(&vec![]), 0);
    assert_eq!(total_objects(&vec![0, 0, 0]), 0);
    assert_eq!(total_objects(&vec![0, 4, 1, 3]), 4);
}

#[test]
fn partition_single_worker_starts_at_one() {
    // One worker, one object: ids [1, 2).
    assert_eq!(partition(1, 1, 0), (1, 2));
}

#[test]
fn partition_ranges_are_contiguous_and_cover() {
    // 10 objects over 3 workers: 10 / 3 = 3 per worker, last takes the rest.
    assert_eq!(partition(10, 3, 0), (1, 4));
    assert_eq!(partition(10, 3, 1), (4, 7));
    assert_eq!(partition(10, 3, 2), (7, 11));
}

#[test]
fn final_partition_includes_last_label() {
    // The last worker's range ends one past the highest label id. A
    // variant that subtracts an extra unit from the final partition's
    // remainder would end at the highest id instead and drop that label
    // at the partition edge; these assertions pin the uncorrected,
    // inclusive boundary for both phases.
    assert_eq!(partition(7, 2, 1), (4, 8));
    assert_eq!(partition(7, 2, 1).1, 7 + 1);
    assert_eq!(partition(5, 5, 4), (5, 6));
}

#[test]
fn partition_exact_split() {
    assert_eq!(partition(8, 4, 0), (1, 3));
    assert_eq!(partition(8, 4, 3), (7, 9));
}

#[test]
fn file_index_offset_is_four_times_first_id() {
    assert_eq!(file_index(1, 0, 0), 4);
    assert_eq!(file_index(1, 0, 1), 5);
    assert_eq!(file_index(1, 0, 2), 6);
    assert_eq!(file_index(1, 0, 3), 7);
    assert_eq!(file_index(1, 1, 0), 8);
    assert_eq!(file_index(5, 2, 3), 31);
}

#[test]
fn format_index_pads_to_six_digits() {
    assert_eq!(format_index(0), b"000000".to_vec());
    assert_eq!(format_index(4), b"000004".to_vec());
    assert_eq!(format_index(123456), b"123456".to_vec());
    assert_eq!(format_index(999999), b"999999".to_vec());
}

#[test]
fn global_patch_size_is_max_over_extents() {
    assert_eq!(global_patch_size(&vec![]), 0);
    let extents: Vec<Extent> = vec![(1, 1, 0, 0, 1), (3, 2, 4, 4, 2), (2, 5, 7, 1, 3)];
    assert_eq!(global_patch_size(&extents), 5);
}

#[test]
fn global_patch_size_follows_a_grown_extent() {
    // Growing one extent past the old maximum moves the size exactly there.
    let mut extents: Vec<Extent> = vec![(2, 1, 0, 0, 1), (3, 2, 4, 4, 2)];
    assert_eq!(global_patch_size(&extents), 3);
    extents[0] = (7, 1, 0, 0, 1);
    assert_eq!(global_patch_size(&extents), 7);
    // Growing one that stays below the maximum leaves it unchanged.
    extents[0] = (2, 1, 0, 0, 1);
    extents[1] = (3, 2, 4, 4, 2);
    extents[0] = (3, 1, 0, 0, 1);
    assert_eq!(global_patch_size(&extents), 3);
}

#[test]
fn merge_extents_keeps_worker_order() {
    let lists: Vec<Vec<Extent>> = vec![
        vec![(1, 1, 0, 0, 1), (2, 2, 1, 1, 2)],
        vec![],
        vec![(3, 3, 2, 2, 3)],
    ];
    let merged = merge_extents(&lists);
    assert_eq!(merged, vec![(1, 1, 0, 0, 1), (2, 2, 1, 1, 2), (3, 3, 2, 2, 3)]);
}

#[test]
fn cut_patch_copies_min_corner_to_origin() {
    // The two-pixel diagonal object of the 4x4 mask: extent (1,1,1,1,1),
    // patch size 1, so the patch is the single raster sample at (1,1).
    let raw: Vec<f32> = vec![
        0.0, 0.1, 0.2, 0.3,
        1.0, 1.1, 1.2, 1.3,
        2.0, 2.1, 2.2, 2.3,
        3.0, 3.1, 3.2, 3.3,
    ];
    let patch = cut_patch(&raw, 0.0f32, 1, 4, (1, 1, 1, 1, 1));
    assert_eq!(patch, vec![vec![1.1f32]]);
}

#[test]
fn cut_patch_zero_pads_outside_object() {
    let raw: Vec<f32> = vec![
        9.0, 8.0,
        7.0, 6.0,
    ];
    // Object spans the whole 2x2 raster but the patch is 3x3.
    let patch = cut_patch(&raw, 0.0f32, 3, 2, (2, 2, 0, 0, 1));
    assert_eq!(
        patch,
        vec![
            vec![9.0, 8.0, 0.0],
            vec![7.0, 6.0, 0.0],
            vec![0.0, 0.0, 0.0],
        ]
    );
}

#[test]
fn cut_patch_zero_span_object_copies_nothing() {
    // A single-pixel object has width == height == 0, so the copied
    // sub-rectangle is empty and the patch stays all zero.
    let raw: Vec<f32> = vec![
        1.0, 2.0,
        3.0, 4.0,
    ];
    let patch = cut_patch(&raw, 0.0f32, 2, 2, (0, 0, 1, 1, 1));
    assert_eq!(patch, vec![vec![0.0, 0.0], vec![0.0, 0.0]]);
}

#[test]
fn cut_patch_skips_positions_past_raster_end() {
    // The extent reaches below and right of the raster's last pixel; those
    // reads are skipped and the cells stay zero.
    let raw: Vec<f32> = vec![
        1.0, 2.0,
        3.0, 4.0,
    ];
    let patch = cut_patch(&raw, 0.0f32, 2, 2, (2, 2, 1, 1, 1));
    assert_eq!(patch, vec![vec![4.0, 0.0], vec![0.0, 0.0]]);
}

#[test]
fn cut_patch_skips_columns_past_raster_width() {
    // A source column past the raster's width is skipped, not wrapped onto
    // the next raster row: 2-wide, 3-high raster, extent one column from
    // the right edge.
    let raw: Vec<f32> = vec![
        10.0, 20.0,
        30.0, 40.0,
        50.0, 60.0,
    ];
    let patch = cut_patch(&raw, 0.0f32, 3, 2, (2, 3, 1, 0, 1));
    assert_eq!(
        patch,
        vec![
            vec![20.0, 0.0, 0.0],
            vec![40.0, 0.0, 0.0],
            vec![60.0, 0.0, 0.0],
        ]
    );
}

#[test]
fn aug_img_right_quarter_turn() {
    let r = aug_img(&grid3(), Direction::Right);
    assert_eq!(
        r,
        vec![
            vec![3.0, 6.0, 9.0],
            vec![2.0, 5.0, 8.0],
            vec![1.0, 4.0, 7.0],
        ]
    );
}

#[test]
fn aug_img_left_quarter_turn() {
    let r = aug_img(&grid3(), Direction::Left);
    assert_eq!(
        r,
        vec![
            vec![7.0, 4.0, 1.0],
            vec![8.0, 5.0, 2.0],
            vec![9.0, 6.0, 3.0],
        ]
    );
}

#[test]
fn aug_img_down_half_turn() {
    let r = aug_img(&grid3(), Direction::Down);
    assert_eq!(
        r,
        vec![
            vec![9.0, 8.0, 7.0],
            vec![6.0, 5.0, 4.0],
            vec![3.0, 2.0, 1.0],
        ]
    );
}

#[test]
fn aug_img_round_trips_all_three_transforms() {
    let img = grid3();
    assert_eq!(aug_img(&aug_img(&img, Direction::Right), Direction::Left), img);
    assert_eq!(aug_img(&aug_img(&img, Direction::Left), Direction::Right), img);
    assert_eq!(aug_img(&aug_img(&img, Direction::Down), Direction::Down), img);
}

#[test]
fn aug_img_single_pixel_is_fixed() {
    let img: Vec<Vec<f32>> = vec![vec![42.0]];
    assert_eq!(aug_img(&img, Direction::Right), img);
    assert_eq!(aug_img(&img, Direction::Down), img);
    assert_eq!(aug_img(&img, Direction::Left), img);
}

#[test]
fn flatten_flipped_flips_row_order() {
    let img: Vec<Vec<f32>> = vec![vec![1.0, 2.0], vec![3.0, 4.0]];
    // flat[y * width + x] == img[height - 1 - y][x]: file row 0 is the
    // last in-memory row.
    assert_eq!(flatten_flipped(&img, 2, 2), vec![3.0, 4.0, 1.0, 2.0]);
}

#[test]
fn flatten_flipped_rectangular_grid() {
    let img: Vec<Vec<f32>> = vec![vec![1.0, 2.0, 3.0], vec![4.0, 5.0, 6.0]];
    assert_eq!(flatten_flipped(&img, 2, 3), vec![4.0, 5.0, 6.0, 1.0, 2.0, 3.0]);
}

#[test]
fn two_workers_merge_indexed_by_label_id() {
    // Two labels split over two workers; the merged list keeps entry
    // id - 1 for label id whatever worker produced it.
    let mask: Vec<u16> = vec![
        1, 0, 0,
        0, 0, 2,
        0, 0, 2,
    ];
    let total = total_objects(&mask) as usize;
    assert_eq!(total, 2);
    let mut lists: Vec<Vec<Extent>> = Vec::new();
    for t in 0..2usize {
        let (start, end) = partition(total, 2, t);
        lists.push(find_extents(&mask, 3, 3, start, end));
    }
    assert_eq!(partition(total, 2, 0), (1, 2));
    assert_eq!(partition(total, 2, 1), (2, 3));
    let merged = merge_extents(&lists);
    assert_eq!(merged.len(), 2);
    for id in 1..=2usize {
        assert_eq!(merged[id - 1].4, id);
    }
    assert_eq!(merged[0], (0, 0, 0, 0, 1));
    assert_eq!(merged[1], (0, 1, 2, 1, 2));
    assert_eq!(global_patch_size(&merged), 1);
}

#[test]
fn end_to_end_two_pixel_object_single_worker() {
    // mask: 4x4 grid, background 0 except label 1 at (1,1) and (2,2).
    let mask: Vec<u16> = vec![
        0, 0, 0, 0,
        0, 1, 0, 0,
        0, 0, 1, 0,
        0, 0, 0, 0,
    ];
    let raw: Vec<f32> = vec![
        0.0, 0.0, 0.0, 0.0,
        0.0, 5.5, 0.0, 0.0,
        0.0, 0.0, 6.5, 0.0,
        0.0, 0.0, 0.0, 0.0,
    ];
    let total = total_objects(&mask);
    assert_eq!(total, 1);

    // One worker: its partition starts at label id 1.
    let (start, end) = partition(total as usize, 1, 0);
    assert_eq!((start, end), (1, 2));

    let worker_extents = find_extents(&mask, 4, 4, start, end);
    assert_eq!(worker_extents, vec![(1, 1, 1, 1, 1)]);

    let extents = merge_extents(&vec![worker_extents]);
    let size = global_patch_size(&extents);
    assert_eq!(size, 1);

    // The file-count offset of the partition is start * 4 = 4, so the four
    // variants of label 1 get the names image_000004 .. image_000007.
    let mut names: Vec<String> = Vec::new();
    for variant in 0..4usize {
        let idx = file_index(start, 0, variant);
        let digits = format_index(idx);
        names.push(format!("image_{}", String::from_utf8(digits).unwrap()));
    }
    assert_eq!(
        names,
        vec!["image_000004", "image_000005", "image_000006", "image_000007"]
    );

    // Each written patch is 1x1 holding the raster sample at (1, 1).
    let patch = cut_patch(&raw, 0.0f32, size, 4, extents[0]);
    assert_eq!(patch, vec![vec![5.5f32]]);
    for dir in [Direction::Left, Direction::Right, Direction::Down] {
        assert_eq!(aug_img(&patch, dir), vec![vec![5.5f32]]);
    }
    assert_eq!(flatten_flipped(&patch, 1, 1), vec![5.5f32]);
}
