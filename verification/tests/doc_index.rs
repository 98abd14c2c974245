use index_scheduler::doc_index::{Attribute, DocIndex, Match, WordArea};
use std::mem;

#[test]
fn docindex_mem_size() {
    assert_eq!(mem::size_of::<DocIndex>(), 16);
}

#[test]
fn attribute_round_trip() {
    let attribute = Attribute::new(1023, 4_194_303);
    assert_eq!(attribute.attribute(), 1023);
    assert_eq!(attribute.word_index(), 4_194_303);
    let attribute = Attribute::new(3, 17);
    assert_eq!(attribute.attribute(), 3);
    assert_eq!(attribute.word_index(), 17);
    assert_eq!(attribute.0, (3 << 22) | 17);
}

#[test]
fn attribute_order() {
    assert!(Attribute::new(1, 2) < Attribute::new(2, 3));
    assert!(Attribute::new(1, 2) < Attribute::new(1, 3));
    assert!(Attribute::new(1, 4_194_303) < Attribute::new(2, 0));
}

#[test]
fn word_area_round_trip() {
    let area = WordArea::new(4_194_303, 1023);
    assert_eq!(area.byte_index(), 4_194_303);
    assert_eq!(area.length(), 1023);
    let area = WordArea::new(12, 5);
    assert_eq!(area.byte_index(), 12);
    assert_eq!(area.length(), 5);
    assert_eq!(area.0, (12 << 10) | 5);
}

#[test]
fn word_area_order() {
    assert!(WordArea::new(1, 2) < WordArea::new(2, 3));
    assert!(WordArea::new(1, 1023) < WordArea::new(2, 0));
}

#[test]
fn match_bounds() {
    let zero = Match::zero();
    let max = Match::max();
    assert_eq!(zero.query_index, 0);
    assert_eq!(zero.attribute, Attribute::new(0, 0));
    assert_eq!(zero.word_area, WordArea::new(0, 0));
    assert!(!zero.is_exact);
    assert_eq!(max.query_index, u32::MAX);
    assert_eq!(max.distance, u8::MAX);
    assert_eq!(max.attribute.0, u32::MAX);
    assert!(max.is_exact);
    assert!(zero < max);
}

use index_scheduler::words_proximity::{
    attribute_proximity, index_proximity, matches_proximity, min_proximity,
};

#[test]
fn three_different_attributes() {
    // "soup" "of the" "the day"
    //
    // { id: 0, attr: 0, attr_index: 0 }
    // { id: 1, attr: 1, attr_index: 0 }
    // { id: 2, attr: 1, attr_index: 1 }
    // { id: 2, attr: 2, attr_index: 0 }
    // { id: 3, attr: 3, attr_index: 1 }

    let matches = &[
        Match { query_index: 0, attribute: Attribute::new(0, 0), ..Match::zero() },
        Match { query_index: 1, attribute: Attribute::new(1, 0), ..Match::zero() },
        Match { query_index: 2, attribute: Attribute::new(1, 1), ..Match::zero() },
        Match { query_index: 2, attribute: Attribute::new(2, 0), ..Match::zero() },
        Match { query_index: 3, attribute: Attribute::new(3, 1), ..Match::zero() },
    ];

    //   soup -> of = 8
    // + of -> the  = 1
    // + the -> day = 8 (not 1)
    assert_eq!(matches_proximity(matches), 17);
}

#[test]
fn two_different_attributes() {
    // "soup day" "soup of the day"
    //
    // { id: 0, attr: 0, attr_index: 0 }
    // { id: 0, attr: 1, attr_index: 0 }
    // { id: 1, attr: 1, attr_index: 1 }
    // { id: 2, attr: 1, attr_index: 2 }
    // { id: 3, attr: 0, attr_index: 1 }
    // { id: 3, attr: 1, attr_index: 3 }

    let matches = &[
        Match { query_index: 0, attribute: Attribute::new(0, 0), ..Match::zero() },
        Match { query_index: 0, attribute: Attribute::new(1, 0), ..Match::zero() },
        Match { query_index: 1, attribute: Attribute::new(1, 1), ..Match::zero() },
        Match { query_index: 2, attribute: Attribute::new(1, 2), ..Match::zero() },
        Match { query_index: 3, attribute: Attribute::new(0, 1), ..Match::zero() },
        Match { query_index: 3, attribute: Attribute::new(1, 3), ..Match::zero() },
    ];

    //   soup -> of = 1
    // + of -> the  = 1
    // + the -> day = 1
    assert_eq!(matches_proximity(matches), 3);
}

#[test]
fn proximity_of_indexes_and_matches() {
    assert_eq!(index_proximity(0, 1), 1);
    assert_eq!(index_proximity(0, 8), 8);
    assert_eq!(index_proximity(0, 100), 8);
    assert_eq!(index_proximity(1, 0), 2);
    assert_eq!(index_proximity(3, 3), 1);
    assert_eq!(index_proximity(100, 0), 9);
    let at = |attribute, index| Match { attribute: Attribute::new(attribute, index), ..Match::zero() };
    assert_eq!(attribute_proximity(&at(0, 0), &at(1, 1)), 8);
    assert_eq!(attribute_proximity(&at(1, 0), &at(1, 1)), 1);
    assert_eq!(attribute_proximity(&at(1, 5), &at(1, 1)), 5);
    assert_eq!(min_proximity(&[at(0, 0), at(1, 4)], &[at(1, 6), at(0, 9)]), 2);
    assert_eq!(min_proximity(&[], &[at(1, 6)]), u32::MAX);
    assert_eq!(min_proximity(&[at(1, 6)], &[]), u32::MAX);
    assert_eq!(matches_proximity(&[]), 0);
    assert_eq!(matches_proximity(&[at(0, 0), at(0, 1)]), 0);
}
