use soft_ratatui::{merge_masks, GlyphMask};

#[test]
fn merging_nothing_gives_no_mask() {
    assert!(merge_masks(&Vec::new()).is_none());
}

#[test]
fn merging_one_part_keeps_it() {
    let part = GlyphMask {
        left: 3,
        top: -1,
        width: 2,
        height: 1,
        data: vec![10, 20],
    };
    let merged = merge_masks(&vec![part]).expect("one part merges");
    assert_eq!(merged.left, 3);
    assert_eq!(merged.top, -1);
    assert_eq!(merged.width, 2);
    assert_eq!(merged.height, 1);
    assert_eq!(merged.data, vec![10, 20]);
}

#[test]
fn overlapping_parts_combine_by_larger_coverage() {
    let a = GlyphMask {
        left: 0,
        top: 0,
        width: 2,
        height: 1,
        data: vec![100, 50],
    };
    let b = GlyphMask {
        left: 1,
        top: 0,
        width: 2,
        height: 1,
        data: vec![80, 200],
    };
    let merged = merge_masks(&vec![a, b]).expect("parts merge");
    assert_eq!(merged.left, 0);
    assert_eq!(merged.top, 0);
    assert_eq!(merged.width, 3);
    assert_eq!(merged.height, 1);
    assert_eq!(merged.data, vec![100, 80, 200]);
}

#[test]
fn disjoint_parts_keep_zero_coverage_between_them() {
    let a = GlyphMask {
        left: 0,
        top: 0,
        width: 1,
        height: 1,
        data: vec![255],
    };
    let b = GlyphMask {
        left: 2,
        top: 1,
        width: 1,
        height: 1,
        data: vec![7],
    };
    let merged = merge_masks(&vec![a, b]).expect("parts merge");
    assert_eq!(merged.left, 0);
    assert_eq!(merged.top, 0);
    assert_eq!(merged.width, 3);
    assert_eq!(merged.height, 2);
    assert_eq!(merged.data, vec![255, 0, 0, 0, 0, 7]);
}
