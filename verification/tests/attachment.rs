use welly_rs::attachment::{attachment_button_label, parse_image_attachments, ImageAttachment};

#[test]
fn parses_newsmth_image_attachment_footer() {
    let screen = r#"发信人: kingstarxin (凌峰), 信区: NewExpress
标  题: Re: dy 旅客都说西安的羊肉泡馍太贵
发信站: 水木社区 (Sat May  9 00:15:12 2026), 站内

二两羊肉怎么不也得十五元，加十元的泡馍，里面有两个馍，正常够两个南方人的饭量的，
25不贵吧

附图: 96a49d81065fbe27660d1f8d18b551b7.png (568 KB) 链接:
https://www.newsmth.net/att.php?953K4O6E0HiP/aUQFD3bEAgAALcIAAHkBAAAuFy9r.png
全文：https://www.newsmth.net/nForum/article/NewExpress/46429609?s=46429711
"#;

    assert_eq!(
        parse_image_attachments(screen),
        vec![ImageAttachment {
            filename: "96a49d81065fbe27660d1f8d18b551b7.png".to_owned(),
            size: "568 KB".to_owned(),
            image_url:
                "https://www.newsmth.net/att.php?953K4O6E0HiP/aUQFD3bEAgAALcIAAHkBAAAuFy9r.png"
                    .to_owned(),
            article_url: Some(
                "https://www.newsmth.net/nForum/article/NewExpress/46429609?s=46429711"
                    .to_owned()
            ),
        }]
    );
}

#[test]
fn parses_multiple_newsmth_image_attachment_footers() {
    let screen = r#"正文

附图: first.png (12 KB) 链接:
https://www.newsmth.net/att.php?first.png
附图: second.jpg (3 MB) 链接:
https://www.newsmth.net/att.php?second.jpg
全文：https://www.newsmth.net/nForum/article/NewExpress/1
"#;

    let attachments = parse_image_attachments(screen);

    assert_eq!(attachments.len(), 2);
    assert_eq!(attachments[0].filename, "first.png");
    assert_eq!(
        attachments[0].image_url,
        "https://www.newsmth.net/att.php?first.png"
    );
    assert_eq!(attachments[1].filename, "second.jpg");
    assert_eq!(attachments[1].size, "3 MB");
    assert_eq!(
        attachments[1].article_url.as_deref(),
        Some("https://www.newsmth.net/nForum/article/NewExpress/1")
    );
}

fn first_png() -> ImageAttachment {
    ImageAttachment {
        filename: "first.png".to_owned(),
        size: "12 KB".to_owned(),
        image_url: "https://www.newsmth.net/att.php?first.png".to_owned(),
        article_url: None,
    }
}

#[test]
fn app_attachment_button_label_opens_all_detected_images() {
    let attachment = first_png();

    assert_eq!(attachment_button_label(&attachment, 3), "打开 3 张图");
}

#[test]
fn main_attachment_button_label_opens_all_detected_images() {
    let attachment = first_png();

    assert_eq!(attachment_button_label(&attachment, 3), "打开 3 张图");
}

#[test]
fn single_attachment_label_names_the_file() {
    assert_eq!(attachment_button_label(&first_png(), 1), "打开 first.png");
    assert_eq!(attachment_button_label(&first_png(), 12), "打开 12 张图");
    assert_eq!(attachment_button_label(&first_png(), 105), "打开 105 张图");
}

#[test]
fn header_without_url_line_is_skipped() {
    let screen = "附图: lost.png (1 KB) 链接:\n全文:https://example.com/a\n";
    assert_eq!(parse_image_attachments(screen), vec![]);
}

#[test]
fn header_needs_a_size_in_parentheses() {
    let screen = "附图: nosize.png 链接:\nhttps://example.com/x.png\n";
    assert_eq!(parse_image_attachments(screen), vec![]);
    let screen = "附图: empty.png () 链接:\nhttps://example.com/x.png\n";
    assert_eq!(parse_image_attachments(screen), vec![]);
}

#[test]
fn attachments_without_article_line_have_no_article_url() {
    let screen = "  附图: a.png (1 KB) 链接:  \r\n\r\n  http://example.com/a.png  \r\n";
    assert_eq!(
        parse_image_attachments(screen),
        vec![ImageAttachment {
            filename: "a.png".to_owned(),
            size: "1 KB".to_owned(),
            image_url: "http://example.com/a.png".to_owned(),
            article_url: None,
        }]
    );
}

#[test]
fn every_attachment_carries_the_last_article_url() {
    let screen = "全文:https://example.com/old\n附图: a.png (1 KB) 链接:\nhttps://example.com/a.png\n附图: b.png (2 KB) 链接:\nhttps://example.com/b.png\n全文：https://example.com/new\n";
    let found = parse_image_attachments(screen);
    assert_eq!(found.len(), 2);
    for attachment in &found {
        assert_eq!(attachment.article_url.as_deref(), Some("https://example.com/new"));
    }
}

#[test]
fn article_line_needs_an_http_url() {
    let screen = "附图: a.png (1 KB) 链接:\nhttps://example.com/a.png\n全文：ftp://example.com/x\n";
    assert_eq!(parse_image_attachments(screen)[0].article_url, None);
}
