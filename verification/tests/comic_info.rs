use cosmic_comic::comicinfo::{parse, ComicInfo};

#[test]
fn fields_are_read() {
    let info = parse(
        "<?xml version=\"1.0\"?><ComicInfo><Series>Saga &amp; Co</Series><Number>12</Number>\
         <Volume>2</Volume><Year>2012</Year><Summary><![CDATA[Two <b>lovers</b>]]></Summary>\
         <Publisher>Image</Publisher><Writer> Brian </Writer><Genre>SF</Genre></ComicInfo>",
    );
    assert_eq!(info.series.as_deref(), Some("Saga & Co"));
    assert_eq!(info.number.as_deref(), Some("12"));
    assert_eq!(info.volume.as_deref(), Some("2"));
    assert_eq!(info.year, Some(2012));
    assert_eq!(info.publisher.as_deref(), Some("Image"));
    assert_eq!(info.writer.as_deref(), Some("Brian"));
    assert_eq!(info.genre.as_deref(), Some("SF"));
    assert_eq!(info.summary.as_deref(), Some("Two <b>lovers</b>"));
    assert!(!info.is_empty());
}

#[test]
fn missing_and_empty_fields_are_left_out() {
    let info = parse("<ComicInfo><Series>  </Series><Year>soon</Year></ComicInfo>");
    assert_eq!(info.series, None);
    assert_eq!(info.year, None);
    assert!(info.is_empty());
    assert!(parse("").is_empty());
    assert!(ComicInfo::default().is_empty());
}

#[test]
fn entities_are_resolved_once() {
    let info = parse("<Series>&quot;A&quot; &apos;B&apos; &lt;C&gt; &amp;lt;</Series>");
    assert_eq!(info.series.as_deref(), Some("\"A\" 'B' <C> &lt;"));
    let info = parse("<Series>&amp;amp;quot; &nope; & &lt</Series>");
    assert_eq!(info.series.as_deref(), Some("&amp;quot; &nope; & &lt"));
}

#[test]
fn the_first_element_counts_and_must_be_closed() {
    let info = parse("<Series>One</Series><Series>Two</Series><Number>3");
    assert_eq!(info.series.as_deref(), Some("One"));
    assert_eq!(info.number, None);
    assert_eq!(parse("<Year>-5</Year>").year, Some(-5));
}
