//! Image attachments announced in the footer of a newsmth article: a header
//! line `附图: <file> (<size>) 链接:`, the image URL on a later line, and the
//! article's own `全文：<url>` link.

use vstd::prelude::*;

use crate::text::{
    copy_range, ends_with_at, find_last, has_prefix, has_suffix, is_http_line, is_http_url,
    last_in, lines_of, starts_with_at, str_chars, string_from_chars, text_lines, trim,
    trim_bounds, CharClass,
};

verus! {

#[derive(Clone, Debug, PartialEq, Eq)]
pub struct ImageAttachment {
    pub filename: String,
    pub size: String,
    pub image_url: String,
    pub article_url: Option<String>,
}

/// An attachment as character sequences: file name, size, image URL and the
/// article URL if the screen shows one.
pub type AttachmentView = (Seq<char>, Seq<char>, Seq<char>, Option<Seq<char>>);

impl View for ImageAttachment {
    type V = AttachmentView;

    open spec fn view(&self) -> AttachmentView {
        (
            self.filename@,
            self.size@,
            self.image_url@,
            match self.article_url {
                Some(u) => Some(u@),
                None => None,
            },
        )
    }
}

/// `附图:`
pub open spec fn header_prefix() -> Seq<char> {
    seq!['\u{9644}', '\u{56fe}', ':']
}

/// `链接:`
pub open spec fn link_suffix() -> Seq<char> {
    seq!['\u{94fe}', '\u{63a5}', ':']
}

/// `全文：` with a full-width colon.
pub open spec fn article_prefix_wide() -> Seq<char> {
    seq!['\u{5168}', '\u{6587}', '\u{ff1a}']
}

/// `全文:` with an ASCII colon.
pub open spec fn article_prefix_ascii() -> Seq<char> {
    seq!['\u{5168}', '\u{6587}', ':']
}

/// The trimmed lines of a screen.
pub open spec fn trimmed_lines(text: Seq<char>) -> Seq<Seq<char>> {
    text_lines(text).map_values(|l: Seq<char>| trim(l))
}

/// The file name and size of a header line `附图: <file> (<size>) 链接:`:
/// the size is what stands between the last `(` and the last `)`, both trimmed
/// and neither empty.
pub open spec fn attachment_header(line: Seq<char>) -> Option<(Seq<char>, Seq<char>)> {
    if !has_prefix(line, header_prefix()) {
        None
    } else {
        let rest = trim(line.subrange(header_prefix().len() as int, line.len() as int));
        if !has_suffix(rest, link_suffix()) {
            None
        } else {
            let body = trim(rest.subrange(0, rest.len() - link_suffix().len()));
            let open = last_in(body, CharClass::Is('('));
            let close = last_in(body, CharClass::Is(')'));
            if open < 0 || close < 0 || close <= open {
                None
            } else {
                let filename = trim(body.subrange(0, open));
                let size = trim(body.subrange(open + 1, close));
                if filename.len() == 0 || size.len() == 0 {
                    None
                } else {
                    Some((filename, size))
                }
            }
        }
    }
}

/// The URL of an article line `全文：<url>` (either colon), if it is an
/// http(s) URL.
pub open spec fn article_url(line: Seq<char>) -> Option<Seq<char>> {
    let rest = if has_prefix(line, article_prefix_wide()) {
        Some(trim(line.subrange(3, line.len() as int)))
    } else if has_prefix(line, article_prefix_ascii()) {
        Some(trim(line.subrange(3, line.len() as int)))
    } else {
        None
    };
    match rest {
        Some(r) => if is_http_url(r) {
            Some(r)
        } else {
            None
        },
        None => None,
    }
}

/// The index of the first line at or after `start` that is an http(s) URL.
pub open spec fn url_line_from(lines: Seq<Seq<char>>, start: int) -> Option<int>
    decreases lines.len() - start,
{
    if start < 0 || start >= lines.len() {
        None
    } else if is_http_url(lines[start]) {
        Some(start)
    } else {
        url_line_from(lines, start + 1)
    }
}

pub proof fn lemma_url_line_from(lines: Seq<Seq<char>>, start: int)
    ensures
        match url_line_from(lines, start) {
            Some(k) => start <= k < lines.len() && is_http_url(lines[k]) && 0 <= start,
            None => true,
        },
    decreases lines.len() - start,
{
    if 0 <= start < lines.len() && !is_http_url(lines[start]) {
        lemma_url_line_from(lines, start + 1);
    }
}

/// The attachments found from line `index` on, each as file name, size and
/// image URL, and the URL of the last article line seen. A header takes the
/// first URL line after it, and scanning resumes after that URL line; a
/// header without any later URL line is passed over.
pub open spec fn scan_attachments(lines: Seq<Seq<char>>, index: int) -> (
    Seq<(Seq<char>, Seq<char>, Seq<char>)>,
    Option<Seq<char>>,
)
    decreases lines.len() - index,
{
    if index < 0 || index >= lines.len() {
        (Seq::empty(), None)
    } else {
        match attachment_header(lines[index]) {
            Some(h) => match url_line_from(lines, index + 1) {
                Some(k) => {
                    proof {
                        lemma_url_line_from(lines, index + 1);
                    }
                    let rest = scan_attachments(lines, k + 1);
                    (seq![(h.0, h.1, lines[k])] + rest.0, rest.1)
                },
                None => scan_attachments(lines, index + 1),
            },
            None => {
                let rest = scan_attachments(lines, index + 1);
                match article_url(lines[index]) {
                    Some(u) => (rest.0, if rest.1 is Some {
                        rest.1
                    } else {
                        Some(u)
                    }),
                    None => rest,
                }
            },
        }
    }
}

/// The attachments of a screen: every one carries the URL of the last
/// article line, if any.
pub open spec fn image_attachments(text: Seq<char>) -> Seq<AttachmentView> {
    let scanned = scan_attachments(trimmed_lines(text), 0);
    scanned.0.map_values(
        |a: (Seq<char>, Seq<char>, Seq<char>)| (a.0, a.1, a.2, scanned.1),
    )
}

/// The image attachments announced on a screen, in order.
pub fn parse_image_attachments(screen_text: &str) -> (r: Vec<ImageAttachment>)
    ensures
        r@.len() == image_attachments(screen_text@).len(),
        forall|i: int| 0 <= i < r@.len() ==> #[trigger] r@[i]@ == image_attachments(screen_text@)[i],
{
    let chars = str_chars(screen_text);
    let lines = trimmed_lines_of(&chars);
    let ghost total = scan_attachments(trimmed_lines(screen_text@), 0);
    let ghost mut found: Seq<(Seq<char>, Seq<char>, Seq<char>)> = Seq::empty();
    let mut attachments: Vec<ImageAttachment> = Vec::new();
    let mut article: Option<Vec<char>> = None;
    let mut index: usize = 0;
    assert(found + scan_attachments(lines@.map_values(|l: Vec<char>| l@), 0).0 =~= total.0);
    while index < lines.len()
        invariant
            index <= lines@.len(),
            lines@.map_values(|l: Vec<char>| l@) == trimmed_lines(screen_text@),
            total == scan_attachments(trimmed_lines(screen_text@), 0),
            found + scan_attachments(trimmed_lines(screen_text@), index as int).0 == total.0,
            (if scan_attachments(trimmed_lines(screen_text@), index as int).1 is Some {
                scan_attachments(trimmed_lines(screen_text@), index as int).1
            } else {
                match article {
                    Some(a) => Some(a@),
                    None => None,
                }
            }) == total.1,
            attachments@.len() == found.len(),
            forall|i: int|
                0 <= i < found.len() ==> #[trigger] attachments@[i]@ == (
                    found[i].0,
                    found[i].1,
                    found[i].2,
                    None::<Seq<char>>,
                ),
        decreases lines@.len() - index,
    {
        let ghost ls = trimmed_lines(screen_text@);
        assert(lines@[index as int]@ == ls[index as int]);
        let line = &lines[index];
        match parse_attachment_header(line) {
            Some((filename, size)) => {
                match next_url_line(&lines, index + 1) {
                    Some(k) => {
                        proof {
                            lemma_url_line_from(ls, index + 1);
                        }
                        assert(lines@[k as int]@ == ls[k as int]);
                        let image_url = string_from_chars(&lines[k], 0, lines[k].len());
                        assert(lines@[k as int]@.subrange(0, lines@[k as int]@.len() as int)
                            =~= lines@[k as int]@);
                        let ghost entry = (filename@, size@, ls[k as int]);
                        attachments.push(
                            ImageAttachment { filename, size, image_url, article_url: None },
                        );
                        proof {
                            let rest = scan_attachments(ls, k + 1);
                            assert(scan_attachments(ls, index as int).0 == seq![entry] + rest.0);
                            assert(found.push(entry) + rest.0 =~= found + (seq![entry]
                                + rest.0));
                            found = found.push(entry);
                        }
                        index = k + 1;
                    },
                    None => {
                        index += 1;
                    },
                }
            },
            None => {
                match parse_article_url(line) {
                    Some(url) => {
                        article = Some(url);
                    },
                    None => {},
                }
                index += 1;
            },
        }
    }
    match article {
        Some(a) => {
            let mut i: usize = 0;
            while i < attachments.len()
                invariant
                    i <= attachments@.len(),
                    attachments@.len() == found.len(),
                    forall|j: int|
                        0 <= j < i ==> #[trigger] attachments@[j]@ == (
                            found[j].0,
                            found[j].1,
                            found[j].2,
                            Some(a@),
                        ),
                    forall|j: int|
                        i <= j < found.len() ==> #[trigger] attachments@[j]@ == (
                            found[j].0,
                            found[j].1,
                            found[j].2,
                            None::<Seq<char>>,
                        ),
                decreases attachments@.len() - i,
            {
                let url = string_from_chars(&a, 0, a.len());
                assert(a@.subrange(0, a@.len() as int) =~= a@);
                assert(attachments@[i as int]@ == (
                    found[i as int].0,
                    found[i as int].1,
                    found[i as int].2,
                    None::<Seq<char>>,
                ));
                let filename = attachments[i].filename.clone();
                let size = attachments[i].size.clone();
                let image_url = attachments[i].image_url.clone();
                assert(filename@ == found[i as int].0 && size@ == found[i as int].1
                    && image_url@ == found[i as int].2);
                let updated = ImageAttachment { filename, size, image_url, article_url: Some(url) };
                assert(updated@ == (found[i as int].0, found[i as int].1, found[i as int].2, Some(a@)));
                attachments.set(i, updated);
                i += 1;
            }
        },
        None => {},
    }
    attachments
}

/// The trimmed lines of the screen's characters.
fn trimmed_lines_of(chars: &Vec<char>) -> (r: Vec<Vec<char>>)
    ensures
        r@.map_values(|l: Vec<char>| l@) == trimmed_lines(chars@),
{
    let raw = lines_of(chars, 0, chars.len());
    assert(chars@.subrange(0, chars@.len() as int) =~= chars@);
    let mut r: Vec<Vec<char>> = Vec::new();
    let mut i: usize = 0;
    while i < raw.len()
        invariant
            i <= raw@.len(),
            raw@.len() == text_lines(chars@).len(),
            forall|q: int| 0 <= q < raw@.len() ==> #[trigger] raw@[q]@ == text_lines(chars@)[q],
            r@.len() == i,
            forall|q: int| 0 <= q < i ==> #[trigger] r@[q]@ == trim(text_lines(chars@)[q]),
        decreases raw@.len() - i,
    {
        let line = &raw[i];
        let (lo, hi) = trim_bounds(line, 0, line.len());
        assert(line@.subrange(0, line@.len() as int) =~= line@);
        r.push(copy_range(line, lo, hi));
        i += 1;
    }
    assert(r@.map_values(|l: Vec<char>| l@) =~= trimmed_lines(chars@));
    r
}

/// The file name and size of a header line, as `attachment_header` gives them.
fn parse_attachment_header(line: &Vec<char>) -> (r: Option<(String, String)>)
    ensures
        match r {
            Some((f, s)) => attachment_header(line@) == Some((f@, s@)),
            None => attachment_header(line@) is None,
        },
{
    let prefix: Vec<char> = vec!['\u{9644}', '\u{56fe}', ':'];
    let suffix: Vec<char> = vec!['\u{94fe}', '\u{63a5}', ':'];
    assert(prefix@ == header_prefix());
    assert(suffix@ == link_suffix());
    let n = line.len();
    assert(line@.subrange(0, n as int) =~= line@);
    if !starts_with_at(line, 0, n, &prefix) {
        return None;
    }
    let (a, b) = trim_bounds(line, 3, n);
    let ghost rest = trim(line@.subrange(3, n as int));
    if !ends_with_at(line, a, b, &suffix) {
        return None;
    }
    let (c, d) = trim_bounds(line, a, b - 3);
    assert(line@.subrange(a as int, b - 3) =~= rest.subrange(0, rest.len() - 3));
    let ghost body = trim(rest.subrange(0, rest.len() - 3));
    let open = find_last(line, c, d, CharClass::Is('('));
    let close = find_last(line, c, d, CharClass::Is(')'));
    match (open, close) {
        (Some(o), Some(k)) => {
            if k <= o {
                return None;
            }
            let (f0, f1) = trim_bounds(line, c, o);
            let (s0, s1) = trim_bounds(line, o + 1, k);
            assert(line@.subrange(c as int, o as int) =~= body.subrange(0, o - c));
            assert(line@.subrange(o + 1, k as int) =~= body.subrange(o - c + 1, k - c));
            if f0 == f1 || s0 == s1 {
                return None;
            }
            let filename = string_from_chars(line, f0, f1);
            let size = string_from_chars(line, s0, s1);
            Some((filename, size))
        },
        _ => None,
    }
}

/// The index of the first URL line at or after `start`.
fn next_url_line(lines: &Vec<Vec<char>>, start: usize) -> (r: Option<usize>)
    requires
        start <= lines@.len(),
    ensures
        r matches Some(k) ==> k < lines@.len(),
        match r {
            Some(k) => url_line_from(lines@.map_values(|l: Vec<char>| l@), start as int) == Some(
                k as int,
            ),
            None => url_line_from(lines@.map_values(|l: Vec<char>| l@), start as int) is None,
        },
{
    let ghost ls = lines@.map_values(|l: Vec<char>| l@);
    let mut i = start;
    while i < lines.len()
        invariant
            start <= i <= lines@.len(),
            ls == lines@.map_values(|l: Vec<char>| l@),
            url_line_from(ls, start as int) == url_line_from(ls, i as int),
        decreases lines@.len() - i,
    {
        let line = &lines[i];
        assert(line@.subrange(0, line@.len() as int) =~= line@);
        assert(ls[i as int] == line@);
        if is_http_line(line, 0, line.len()) {
            return Some(i);
        }
        i += 1;
    }
    None
}

/// The URL of an article line, as `article_url` gives it.
fn parse_article_url(line: &Vec<char>) -> (r: Option<Vec<char>>)
    ensures
        match r {
            Some(u) => article_url(line@) == Some(u@),
            None => article_url(line@) is None,
        },
{
    let wide: Vec<char> = vec!['\u{5168}', '\u{6587}', '\u{ff1a}'];
    let ascii: Vec<char> = vec!['\u{5168}', '\u{6587}', ':'];
    assert(wide@ == article_prefix_wide());
    assert(ascii@ == article_prefix_ascii());
    let n = line.len();
    assert(line@.subrange(0, n as int) =~= line@);
    if starts_with_at(line, 0, n, &wide) || starts_with_at(line, 0, n, &ascii) {
        let (a, b) = trim_bounds(line, 3, n);
        if is_http_line(line, a, b) {
            Some(copy_range(line, a, b))
        } else {
            None
        }
    } else {
        None
    }
}

/// The character of a decimal digit.
pub open spec fn digit_char(d: int) -> char {
    (d + 48) as char
}

/// The decimal digits of `n`.
pub open spec fn decimal_digits(n: nat) -> Seq<char>
    decreases n,
{
    if n < 10 {
        seq![digit_char(n as int)]
    } else {
        decimal_digits(n / 10).push(digit_char((n % 10) as int))
    }
}

/// The decimal digits of `n`.
pub fn decimal_chars(n: usize) -> (v: Vec<char>)
    ensures
        v@ == decimal_digits(n as nat),
    decreases n,
{
    let d: u8 = (n % 10) as u8 + 48;
    let c = d as char;
    assert(c == digit_char((n % 10) as int));
    if n < 10 {
        let mut v: Vec<char> = Vec::new();
        v.push(c);
        v
    } else {
        let mut v = decimal_chars(n / 10);
        v.push(c);
        v
    }
}

/// The label of the button that opens the attachments: `打开 N 张图` for
/// several images, `打开 <file name>` for one.
pub open spec fn attachment_label(filename: Seq<char>, count: nat) -> Seq<char> {
    if count > 1 {
        seq!['\u{6253}', '\u{5f00}', ' '] + decimal_digits(count) + seq![' ', '\u{5f20}', '\u{56fe}']
    } else {
        seq!['\u{6253}', '\u{5f00}', ' '] + filename
    }
}

/// The label of the button that opens the detected images.
pub fn attachment_button_label(attachment: &ImageAttachment, count: usize) -> (s: String)
    ensures
        s@ == attachment_label(attachment.filename@, count as nat),
{
    let mut label: Vec<char> = Vec::new();
    label.push('\u{6253}');
    label.push('\u{5f00}');
    label.push(' ');
    if count > 1 {
        let mut digits = decimal_chars(count);
        label.append(&mut digits);
        label.push(' ');
        label.push('\u{5f20}');
        label.push('\u{56fe}');
    } else {
        let name = str_chars(attachment.filename.as_str());
        let mut i: usize = 0;
        let ghost start = label@;
        while i < name.len()
            invariant
                i <= name@.len(),
                label@ == start + name@.take(i as int),
            decreases name@.len() - i,
        {
            label.push(name[i]);
            assert(name@.take(i + 1) =~= name@.take(i as int).push(name@[i as int]));
            i += 1;
        }
        assert(name@.take(name@.len() as int) =~= name@);
    }
    let n = label.len();
    string_from_chars(&label, 0, n)
}

/// Every attachment of a screen carries the same article URL.
pub proof fn lemma_attachments_share_article_url(text: Seq<char>, i: int, j: int)
    requires
        0 <= i < image_attachments(text).len(),
        0 <= j < image_attachments(text).len(),
    ensures
        image_attachments(text)[i].3 == image_attachments(text)[j].3,
{
}

} // verus!
