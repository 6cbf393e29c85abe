use diagtool::errors::DiagError;
use diagtool::model::visual::{ConstraintRange, DimensionConstraintData, TextData};
use diagtool::model::{Diagram, DiagramNode, NodeIdx, NodeType};
use diagtool::solver::fontmetrics::{
    get_default_font, kerning_from, kerning_request, loaded_from, lookups, max_height,
    measuring_size, total_width, GlyphMeasure, MetricsCalculator,
};
use diagtool::solver::seed::{apply_measure, measure_texts, seed_constraint};

fn glyph(kerning: i64, advance: i64, height: i64) -> GlyphMeasure {
    GlyphMeasure { kerning, advance, height }
}

fn calculator() -> Option<MetricsCalculator> {
    let ft = freetype::Library::init().expect("the font engine starts without a font");
    let face = ft.new_face("/usr/share/fonts/truetype/dejavu/DejaVuSans.ttf", 0).ok()?;
    MetricsCalculator::new(ft, face).ok()
}

#[test]
fn default_font_is_the_system_times() {
    assert_eq!(get_default_font(), "/System/Library/Fonts/Times.ttc");
}

#[test]
fn width_of_no_glyphs_is_zero() {
    assert_eq!(total_width(&vec![]).ok(), Some(0));
    assert_eq!(max_height(&vec![]), 0);
}

#[test]
fn width_adds_advances_and_kerning() {
    assert_eq!(total_width(&vec![glyph(0, 640, 0)]).ok(), Some(640));
    assert_eq!(
        total_width(&vec![glyph(0, 640, 10), glyph(-64, 512, 20), glyph(32, 300, 5)]).ok(),
        Some(640 - 64 + 512 + 32 + 300)
    );
    assert_eq!(total_width(&vec![glyph(-5, -7, 0)]).ok(), Some(-12));
}

#[test]
fn width_that_leaves_the_number_range_is_refused() {
    assert_eq!(total_width(&vec![glyph(0, i64::MAX, 0)]).ok(), Some(i64::MAX));
    match total_width(&vec![glyph(0, i64::MAX, 0), glyph(0, 1, 0)]) {
        Err(DiagError::UnknownError(_)) => {},
        other => panic!("unexpected {:?}", other),
    }
    assert!(total_width(&vec![glyph(1, i64::MAX, 0)]).is_err());
    assert!(total_width(&vec![glyph(i64::MIN, -1, 0)]).is_err());
    assert_eq!(total_width(&vec![glyph(i64::MIN, i64::MAX, 0)]).ok(), Some(-1));
    assert!(total_width(&vec![glyph(0, i64::MAX, 0), glyph(0, 1, 0), glyph(0, -1, 0)]).is_err());
    assert_eq!(
        total_width(&vec![glyph(0, i64::MAX, 0), glyph(-1, 1, 0)]).ok(),
        Some(i64::MAX)
    );
}

#[test]
fn repeated_glyph_is_at_least_its_advances_less_the_kerning() {
    let advance = 700;
    let max_kerning = 90;
    for count in 1..6i64 {
        let mut run = vec![glyph(0, advance, 1)];
        for i in 1..count {
            run.push(glyph(if i % 2 == 0 { -max_kerning } else { -40 }, advance, 1));
        }
        let width = total_width(&run).unwrap();
        assert!(width >= count * advance - (count - 1) * max_kerning);
    }
    assert_eq!(
        total_width(&vec![glyph(0, 700, 1), glyph(-90, 700, 1), glyph(-90, 700, 1)]).ok(),
        Some(3 * 700 - 2 * 90)
    );
}

#[test]
fn height_is_that_of_the_tallest_glyph() {
    assert_eq!(max_height(&vec![glyph(0, 1, 7)]), 7);
    assert_eq!(max_height(&vec![glyph(0, 1, 7), glyph(0, 1, 12), glyph(0, 1, 3)]), 12);
    assert_eq!(max_height(&vec![glyph(0, 1, -7), glyph(0, 1, -2)]), 0);
    assert_eq!(max_height(&vec![glyph(0, 1, i64::MAX)]), i64::MAX as u64);
}

#[test]
fn init_error_names_the_calculator_and_the_cause() {
    match MetricsCalculator::init_error(freetype::Error::CannotOpenResource) {
        DiagError::InitError { component, reason } => {
            assert_eq!(component, "MetricsCalculator");
            assert_eq!(reason, freetype::Error::CannotOpenResource);
        },
        other => panic!("unexpected {:?}", other),
    }
}

#[test]
fn measuring_the_empty_text_gives_no_extent() {
    if let Some(mc) = calculator() {
        assert_eq!(mc.compute_width("").unwrap(), 0);
        assert_eq!(mc.compute_height("").unwrap(), 0);
        assert!(mc.measure("").unwrap().is_empty());
    }
}

#[test]
fn measuring_a_text_adds_up_its_glyphs() {
    if let Some(mc) = calculator() {
        let glyphs = mc.measure("ffk").unwrap();
        assert_eq!(glyphs.len(), 3);
        assert_eq!(glyphs[0].kerning, 0);
        let sum: i64 = glyphs.iter().map(|g| g.kerning + g.advance).sum();
        assert_eq!(mc.compute_width("ffk").unwrap(), sum);
        let tallest = glyphs.iter().map(|g| g.height).max().unwrap();
        assert_eq!(mc.compute_height("ffk").unwrap(), tallest as u64);
        assert!(mc.compute_width("f").unwrap() > 0);
    }
}

#[test]
fn measuring_a_repeated_character_is_bounded_by_its_kerning() {
    if let Some(mc) = calculator() {
        let single = mc.compute_width("a").unwrap();
        let pair = mc.compute_width("aa").unwrap();
        let kerning = (pair - 2 * single).abs();
        for count in 1..6usize {
            let width = mc.compute_width(&"a".repeat(count)).unwrap();
            assert!(width >= count as i64 * single - (count as i64 - 1) * kerning);
        }
    }
}

#[test]
fn failed_scaling_is_a_failure_to_set_up() {
    if let Some(ft) = freetype::Library::init().ok() {
        if let Some(face) =
            ft.new_face("/usr/share/fonts/truetype/dejavu/DejaVuSans.ttf", 0).ok()
        {
            match MetricsCalculator::from_scaled(ft, face, Err(freetype::Error::InvalidPixelSize))
            {
                Err(DiagError::InitError { component, reason }) => {
                    assert_eq!(component, "MetricsCalculator");
                    assert_eq!(reason, freetype::Error::InvalidPixelSize);
                },
                _ => panic!("scaling failed, so must the set-up"),
            }
        }
    }
}

#[test]
fn seeding_fixes_width_and_height_to_the_measure() {
    let open = DimensionConstraintData::default();
    let seeded = seed_constraint(open, 120, 14);
    assert_eq!(seeded.w, ConstraintRange::exactly(120));
    assert_eq!(seeded.h, ConstraintRange::exactly(14));
    assert_eq!(seeded.x, ConstraintRange::default());
    assert_eq!(seeded.y, ConstraintRange::default());
}

#[test]
fn seeding_keeps_a_range_that_rules_the_measure_out() {
    let c = DimensionConstraintData {
        x: ConstraintRange::exactly(3),
        y: ConstraintRange { min: Some(1), max: None },
        w: ConstraintRange { min: Some(200), max: None },
        h: ConstraintRange { min: Some(10), max: Some(20) },
    };
    let seeded = seed_constraint(c, 120, 14);
    assert_eq!(seeded.w, ConstraintRange { min: Some(200), max: None });
    assert_eq!(seeded.h, ConstraintRange::exactly(14));
    assert_eq!(seeded.x, c.x);
    assert_eq!(seeded.y, c.y);
    let tight = DimensionConstraintData {
        w: ConstraintRange { min: None, max: Some(119) },
        h: ConstraintRange { min: Some(14), max: Some(14) },
        ..Default::default()
    };
    let seeded = seed_constraint(tight, 120, 14);
    assert_eq!(seeded.w, ConstraintRange { min: None, max: Some(119) });
    assert_eq!(seeded.h, ConstraintRange::exactly(14));
}

#[test]
fn apply_measure_records_a_measured_size() {
    let mut d = Diagram::new();
    let id = DiagramNode::create(&mut d, NodeType::Text);
    let node = d.get_mut(id).unwrap();
    node.insert(TextData { text: String::from("abc") });
    assert!(apply_measure(node, Ok(120), Ok(14)));
    let c = node.get::<DimensionConstraintData>().unwrap();
    assert_eq!(c.w, ConstraintRange::exactly(120));
    assert_eq!(c.h, ConstraintRange::exactly(14));
    assert_eq!(node.get::<TextData>().unwrap().text, "abc");
}

#[test]
fn apply_measure_leaves_the_node_alone_when_measuring_failed() {
    let mut d = Diagram::new();
    let id = DiagramNode::create(&mut d, NodeType::Text);
    let node = d.get_mut(id).unwrap();
    let failure = || DiagError::FtError(freetype::Error::InvalidGlyphIndex);
    assert!(!apply_measure(node, Err(failure()), Ok(14)));
    assert!(!apply_measure(node, Ok(120), Err(failure())));
    assert!(!apply_measure(node, Err(DiagError::UnknownError(String::from("x"))), Err(failure())));
    assert!(!apply_measure(node, Ok(120), Ok(i64::MAX as u64 + 1)));
    assert!(node.get::<DimensionConstraintData>().is_none());
    assert!(apply_measure(node, Ok(120), Ok(i64::MAX as u64)));
    assert_eq!(
        node.get::<DimensionConstraintData>().unwrap().h,
        ConstraintRange::exactly(i64::MAX)
    );
}

#[test]
fn measure_texts_seeds_text_nodes_only() {
    if let Some(mc) = calculator() {
        let mut d = Diagram::new();
        let text = DiagramNode::create(&mut d, NodeType::Text);
        d.get_mut(text).unwrap().insert(TextData { text: String::from("ffk") });
        let empty = DiagramNode::create(&mut d, NodeType::Text);
        d.get_mut(empty).unwrap().insert(TextData { text: String::new() });
        let bare = DiagramNode::create(&mut d, NodeType::Text);
        let boxed = DiagramNode::create(&mut d, NodeType::Box);
        d.get_mut(boxed).unwrap().insert(TextData { text: String::from("ffk") });
        let failed = measure_texts(&mut d, &mc);
        assert_eq!(failed, Vec::<NodeIdx>::new());
        let c = d.get(text).unwrap().get::<DimensionConstraintData>().unwrap();
        assert_eq!(c.w, ConstraintRange::exactly(mc.compute_width("ffk").unwrap()));
        assert_eq!(c.h, ConstraintRange::exactly(mc.compute_height("ffk").unwrap() as i64));
        let c = d.get(empty).unwrap().get::<DimensionConstraintData>().unwrap();
        assert_eq!(c.w, ConstraintRange::exactly(0));
        assert_eq!(c.h, ConstraintRange::exactly(0));
        assert!(d.get(bare).unwrap().get::<DimensionConstraintData>().is_none());
        assert!(d.get(boxed).unwrap().get::<DimensionConstraintData>().is_none());
    }
}

#[test]
fn measure_texts_never_reports_an_empty_text() {
    if let Some(mc) = calculator() {
        let mut d = Diagram::new();
        let kept = DimensionConstraintData {
            x: ConstraintRange::exactly(7),
            w: ConstraintRange { min: Some(5), max: None },
            ..Default::default()
        };
        let first = DiagramNode::create(&mut d, NodeType::Text);
        d.get_mut(first).unwrap().insert(TextData { text: String::new() });
        let second = DiagramNode::create(&mut d, NodeType::Text);
        d.get_mut(second).unwrap().insert(TextData { text: String::new() });
        d.get_mut(second).unwrap().insert(kept);
        assert!(measure_texts(&mut d, &mc).is_empty());
        let c = d.get(first).unwrap().get::<DimensionConstraintData>().unwrap();
        assert_eq!(c.w, ConstraintRange::exactly(0));
        assert_eq!(c.h, ConstraintRange::exactly(0));
        assert_eq!(c.x, ConstraintRange::default());
        let c = d.get(second).unwrap().get::<DimensionConstraintData>().unwrap();
        assert_eq!(c.w, ConstraintRange { min: Some(5), max: None });
        assert_eq!(c.h, ConstraintRange::exactly(0));
        assert_eq!(c.x, ConstraintRange::exactly(7));
    }
}

#[test]
fn texts_are_measured_at_a_fixed_size() {
    assert_eq!(measuring_size(), (12, 0, 50, 0));
}

#[test]
fn lookups_pair_each_character_with_the_one_before_it() {
    assert_eq!(lookups(""), vec![]);
    assert_eq!(lookups("a"), vec![(None, 'a')]);
    assert_eq!(lookups("ffk"), vec![(None, 'f'), (Some('f'), 'f'), (Some('f'), 'k')]);
    assert_eq!(lookups("é√"), vec![(None, 'é'), (Some('é'), '√')]);
}

#[test]
fn failed_glyph_load_is_a_failure_to_measure() {
    assert!(loaded_from(Ok(())).is_ok());
    match loaded_from(Err(freetype::Error::InvalidCharacterCode)) {
        Err(DiagError::FtError(e)) => assert_eq!(e, freetype::Error::InvalidCharacterCode),
        other => panic!("unexpected {:?}", other),
    }
}

#[test]
fn kerning_is_looked_up_only_between_two_glyphs() {
    assert_eq!(kerning_request(Some(3), Some(4)), Some((3, 4)));
    assert_eq!(kerning_request(Some(0), Some(u32::MAX)), Some((0, u32::MAX)));
    assert_eq!(kerning_request(None, Some(4)), None);
    assert_eq!(kerning_request(Some(3), None), None);
    assert_eq!(kerning_request(None, None), None);
}

#[test]
fn kerning_follows_the_answer_of_the_engine() {
    assert_eq!(kerning_from(None).ok(), Some(0));
    assert_eq!(kerning_from(Some(Ok(-64))).ok(), Some(-64));
    assert_eq!(kerning_from(Some(Ok(i64::MAX))).ok(), Some(i64::MAX));
    match kerning_from(Some(Err(freetype::Error::InvalidGlyphIndex))) {
        Err(DiagError::FtError(e)) => assert_eq!(e, freetype::Error::InvalidGlyphIndex),
        other => panic!("unexpected {:?}", other),
    }
}
