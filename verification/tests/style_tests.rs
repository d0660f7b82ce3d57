use plotcoord::{
    FontDataInternal, FontDesc, FontFamily, FontStyle, FontTransform, IntoTextStyle, RGBAColor,
    TextAlignment, TextStyle,
};

#[test]
fn test_text_style_builders() {
    let style = FontDesc::new(FontFamily::SansSerif, 20).into_text_style();
    assert_eq!(style.color, RGBAColor(0, 0, 0, 255));
    assert_eq!(style.alignment, TextAlignment::Left);
    assert_eq!(style.font.size, 20);

    let red = style.color(&RGBAColor(255, 0, 0, 255));
    assert_eq!(red.color, RGBAColor(255, 0, 0, 255));
    assert_eq!(red.font, style.font);
    assert_eq!(red.alignment, TextAlignment::Left);

    let turned = red.transform(FontTransform::Rotate90);
    assert_eq!(turned.font.transform, FontTransform::Rotate90);
    assert_eq!(turned.color, red.color);

    let centred = turned.alignment(TextAlignment::Center);
    assert_eq!(centred.alignment, TextAlignment::Center);
    assert_eq!(centred.font, turned.font);
}

#[test]
fn test_text_style_from_family() {
    let style: TextStyle = FontFamily::Serif.into_text_style();
    assert_eq!(style.font.family, FontFamily::Serif);
    assert_eq!(style.font.style, FontStyle::Normal);
    assert_eq!(style.font.transform, FontTransform::Rotate0);
}

#[test]
fn test_estimate_layout() {
    let font = FontDataInternal::new("sans-serif".to_string(), "normal".to_string()).unwrap();
    let layout = font.estimate_layout(20, "test").unwrap();
    // Eight tenths of the size above the baseline, two tenths below, and
    // half the size per character across.
    assert_eq!(layout, ((0, -16), (40, 4)));
    let empty = font.estimate_layout(20, "").unwrap();
    assert_eq!(empty, ((0, -16), (0, 4)));
}
