use kenney_atlas::parser::{parse_descriptor, AttributeName, ParseError};

#[test]
fn one_element_round_trip() {
    let text = r#"<TextureAtlas imagePath="sheet.png">
        <SubTexture name="ufoBlue.png" x="0" y="0" width="64" height="64"/>
    </TextureAtlas>"#;
    let regions = parse_descriptor(text).unwrap();
    assert_eq!(regions.len(), 1);
    assert_eq!(regions[0].name, "ufoBlue.png");
    assert_eq!(regions[0].x, 0);
    assert_eq!(regions[0].y, 0);
    assert_eq!(regions[0].width, 64);
    assert_eq!(regions[0].height, 64);
}

#[test]
fn document_order_not_spatial_order() {
    // B sits above and left of A in the sheet; document order still wins.
    let text = r#"<TextureAtlas>
        <SubTexture name="A" x="500" y="500" width="10" height="10"/>
        <SubTexture name="B" x="0" y="0" width="10" height="10"/>
    </TextureAtlas>"#;
    let regions = parse_descriptor(text).unwrap();
    assert_eq!(regions.len(), 2);
    assert_eq!(regions[0].name, "A");
    assert_eq!(regions[1].name, "B");
}

#[test]
fn several_elements_round_trip() {
    let text = r#"<TextureAtlas>
        <SubTexture name="a.png" x="1" y="2" width="3" height="4"/>
        <SubTexture name="b.png" x="5" y="6" width="7" height="8"/>
        <SubTexture name="c.png" x="9" y="10" width="11" height="12"/>
    </TextureAtlas>"#;
    let regions = parse_descriptor(text).unwrap();
    assert_eq!(regions.len(), 3);
    let expected = [
        ("a.png", 1, 2, 3, 4),
        ("b.png", 5, 6, 7, 8),
        ("c.png", 9, 10, 11, 12),
    ];
    for (i, (name, x, y, w, h)) in expected.iter().enumerate() {
        assert_eq!(regions[i].name, *name);
        assert_eq!(regions[i].x, *x);
        assert_eq!(regions[i].y, *y);
        assert_eq!(regions[i].width, *w);
        assert_eq!(regions[i].height, *h);
    }
}

#[test]
fn nested_elements_are_found() {
    let text = r#"<root>
        <group>
            <SubTexture name="deep" x="1" y="1" width="1" height="1"/>
        </group>
        <SubTexture name="shallow" x="2" y="2" width="2" height="2"/>
    </root>"#;
    let regions = parse_descriptor(text).unwrap();
    assert_eq!(regions.len(), 2);
    assert_eq!(regions[0].name, "deep");
    assert_eq!(regions[1].name, "shallow");
}

#[test]
fn non_qualifying_elements_ignored() {
    let text = r#"<TextureAtlas>
        <Other name="x" x="1" y="1" width="1" height="1"/>
        <subtexture name="lowercase" x="1" y="1" width="1" height="1"/>
    </TextureAtlas>"#;
    let regions = parse_descriptor(text).unwrap();
    assert_eq!(regions.len(), 0);
}

#[test]
fn empty_descriptor_is_ok() {
    let regions = parse_descriptor("<TextureAtlas/>").unwrap();
    assert_eq!(regions.len(), 0);
}

#[test]
fn malformed_descriptor() {
    let r = parse_descriptor("<TextureAtlas><SubTexture");
    assert!(matches!(r, Err(ParseError::MalformedDescriptor)));
}

#[test]
fn empty_text_is_malformed() {
    let r = parse_descriptor("");
    assert!(matches!(r, Err(ParseError::MalformedDescriptor)));
}

#[test]
fn missing_name_attribute() {
    let text = r#"<a><SubTexture x="0" y="0" width="1" height="1"/></a>"#;
    match parse_descriptor(text) {
        Err(ParseError::MissingAttribute { element, attribute }) => {
            assert_eq!(element, 0);
            assert_eq!(attribute, AttributeName::Name);
        }
        other => panic!("expected MissingAttribute, got {:?}", other),
    }
}

#[test]
fn missing_x_attribute() {
    let text = r#"<a><SubTexture name="n" y="0" width="1" height="1"/></a>"#;
    match parse_descriptor(text) {
        Err(ParseError::MissingAttribute { element, attribute }) => {
            assert_eq!(element, 0);
            assert_eq!(attribute, AttributeName::X);
        }
        other => panic!("expected MissingAttribute, got {:?}", other),
    }
}

#[test]
fn missing_y_attribute() {
    let text = r#"<a><SubTexture name="n" x="0" width="1" height="1"/></a>"#;
    match parse_descriptor(text) {
        Err(ParseError::MissingAttribute { element, attribute }) => {
            assert_eq!(element, 0);
            assert_eq!(attribute, AttributeName::Y);
        }
        other => panic!("expected MissingAttribute, got {:?}", other),
    }
}

#[test]
fn missing_width_attribute() {
    let text = r#"<a><SubTexture name="n" x="0" y="0" height="1"/></a>"#;
    match parse_descriptor(text) {
        Err(ParseError::MissingAttribute { element, attribute }) => {
            assert_eq!(element, 0);
            assert_eq!(attribute, AttributeName::Width);
        }
        other => panic!("expected MissingAttribute, got {:?}", other),
    }
}

#[test]
fn missing_height_attribute() {
    let text = r#"<a><SubTexture name="n" x="0" y="0" width="1"/></a>"#;
    match parse_descriptor(text) {
        Err(ParseError::MissingAttribute { element, attribute }) => {
            assert_eq!(element, 0);
            assert_eq!(attribute, AttributeName::Height);
        }
        other => panic!("expected MissingAttribute, got {:?}", other),
    }
}

#[test]
fn missing_attribute_reports_element_index() {
    let text = r#"<a>
        <SubTexture name="ok" x="0" y="0" width="1" height="1"/>
        <SubTexture name="bad" y="0" width="1" height="1"/>
    </a>"#;
    match parse_descriptor(text) {
        Err(ParseError::MissingAttribute { element, attribute }) => {
            assert_eq!(element, 1);
            assert_eq!(attribute, AttributeName::X);
        }
        other => panic!("expected MissingAttribute, got {:?}", other),
    }
}

#[test]
fn name_checked_before_numeric_attributes() {
    // Both name and x are missing; name is reported.
    let text = r#"<a><SubTexture y="0" width="1" height="1"/></a>"#;
    match parse_descriptor(text) {
        Err(ParseError::MissingAttribute { element, attribute }) => {
            assert_eq!(element, 0);
            assert_eq!(attribute, AttributeName::Name);
        }
        other => panic!("expected MissingAttribute, got {:?}", other),
    }
}

#[test]
fn invalid_non_numeric_value() {
    let text = r#"<a><SubTexture name="n" x="abc" y="0" width="1" height="1"/></a>"#;
    match parse_descriptor(text) {
        Err(ParseError::InvalidAttributeValue { element, attribute, raw }) => {
            assert_eq!(element, 0);
            assert_eq!(attribute, AttributeName::X);
            assert_eq!(raw, "abc");
        }
        other => panic!("expected InvalidAttributeValue, got {:?}", other),
    }
}

#[test]
fn invalid_negative_value() {
    let text = r#"<a><SubTexture name="n" x="0" y="-5" width="1" height="1"/></a>"#;
    match parse_descriptor(text) {
        Err(ParseError::InvalidAttributeValue { element, attribute, raw }) => {
            assert_eq!(element, 0);
            assert_eq!(attribute, AttributeName::Y);
            assert_eq!(raw, "-5");
        }
        other => panic!("expected InvalidAttributeValue, got {:?}", other),
    }
}

#[test]
fn invalid_out_of_range_value() {
    let text = r#"<a><SubTexture name="n" x="0" y="0" width="4294967296" height="1"/></a>"#;
    match parse_descriptor(text) {
        Err(ParseError::InvalidAttributeValue { element, attribute, raw }) => {
            assert_eq!(element, 0);
            assert_eq!(attribute, AttributeName::Width);
            assert_eq!(raw, "4294967296");
        }
        other => panic!("expected InvalidAttributeValue, got {:?}", other),
    }
}

#[test]
fn invalid_empty_value() {
    let text = r#"<a><SubTexture name="n" x="0" y="0" width="1" height=""/></a>"#;
    match parse_descriptor(text) {
        Err(ParseError::InvalidAttributeValue { element, attribute, raw }) => {
            assert_eq!(element, 0);
            assert_eq!(attribute, AttributeName::Height);
            assert_eq!(raw, "");
        }
        other => panic!("expected InvalidAttributeValue, got {:?}", other),
    }
}

#[test]
fn invalid_padded_value() {
    let text = r#"<a><SubTexture name="n" x=" 4" y="0" width="1" height="1"/></a>"#;
    match parse_descriptor(text) {
        Err(ParseError::InvalidAttributeValue { element, attribute, raw }) => {
            assert_eq!(element, 0);
            assert_eq!(attribute, AttributeName::X);
            assert_eq!(raw, " 4");
        }
        other => panic!("expected InvalidAttributeValue, got {:?}", other),
    }
}

#[test]
fn first_failing_element_wins() {
    let text = r#"<a>
        <SubTexture name="n" x="bad" y="0" width="1" height="1"/>
        <SubTexture name="m" y="0" width="1" height="1"/>
    </a>"#;
    match parse_descriptor(text) {
        Err(ParseError::InvalidAttributeValue { element, attribute, raw }) => {
            assert_eq!(element, 0);
            assert_eq!(attribute, AttributeName::X);
            assert_eq!(raw, "bad");
        }
        other => panic!("expected InvalidAttributeValue, got {:?}", other),
    }
}

#[test]
fn extra_attributes_are_ignored() {
    let text = r#"<a><SubTexture name="n" x="1" y="2" width="3" height="4" rotated="true"/></a>"#;
    let regions = parse_descriptor(text).unwrap();
    assert_eq!(regions.len(), 1);
    assert_eq!(regions[0].name, "n");
}
