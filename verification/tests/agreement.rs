//! The searches and decodings that can be written as regular expressions, held
//! against those.
use regex::{Captures, Regex};
use share_resolver::address::{extract_video_id, find_link};
use share_resolver::decode::{decode_backslash_escapes, decode_html_entities};
use share_resolver::weburl::WebUrl;

/// Texts made of the given pieces, in an order that looks random.
fn texts(pieces: &[&str], count: usize) -> Vec<String> {
    let mut state: u64 = 0x9e37_79b9_7f4a_7c15;
    let mut next = move |limit: usize| {
        state ^= state << 13;
        state ^= state >> 7;
        state ^= state << 17;
        (state % limit as u64) as usize
    };
    (0..count)
        .map(|_| {
            let length = next(14);
            (0..length).map(|_| pieces[next(pieces.len())]).collect()
        })
        .collect()
}

fn number(captures: &Captures<'_>, base: u32) -> String {
    let whole = captures.get(0).map_or("", |found| found.as_str());
    captures
        .get(1)
        .and_then(|digits| u32::from_str_radix(digits.as_str(), base).ok())
        .and_then(char::from_u32)
        .map_or_else(|| whole.to_string(), |character| character.to_string())
}

#[test]
fn links_agree_with_their_regular_expression() {
    let pattern = Regex::new(r#"(?i)https?://[^\s<>"'`]+"#).unwrap();
    let pieces =
        ["h", "http", "HTTP", "s", "S", "ſ", "K", ":", "/", "://", " ", "\u{a0}", "<", "'", "a", "中"];
    for text in texts(&pieces, 20_000) {
        let expected = pattern.find(&text).map(|found| found.as_str());
        assert_eq!(find_link(&text).as_deref(), expected, "{text}");
    }
}

#[test]
fn video_numbers_agree_with_their_regular_expression() {
    let pattern = Regex::new(r"/(?:(?:share)/)?(?:video|note)/(\d+)").unwrap();
    let pieces = ["/", "share", "/share", "/video", "/video/", "/note/", "note", "1", "23", "x", "٣"];
    for text in texts(&pieces, 20_000) {
        let url = WebUrl::parse(&format!("https://a.example/{text}")).unwrap();
        let expected = pattern.captures(url.path()).map(|found| found[1].to_string());
        assert_eq!(extract_video_id(&url), expected, "{text}");
    }
}

#[test]
fn entities_agree_with_their_regular_expression() {
    let pattern = Regex::new(r"&(?i:(amp|quot|apos|lt|gt|#\d+|#x[0-9a-f]+));").unwrap();
    let pieces = [
        "&", ";", "#", "x", "X", "amp", "AMP", "quot", "apos", "apoſ", "lt", "gt", "41", "d800",
        "6", "f", "٣", "&amp;", "&#", "+",
    ];
    for text in texts(&pieces, 20_000) {
        let expected = pattern.replace_all(&text, |captures: &Captures<'_>| {
            let whole = captures[0].to_string();
            let key = captures[1].to_ascii_lowercase();
            let code = match key.as_str() {
                "amp" => Some(38),
                "quot" => Some(34),
                "apos" => Some(39),
                "lt" => Some(60),
                "gt" => Some(62),
                _ => match key.strip_prefix("#x") {
                    Some(digits) => u32::from_str_radix(digits, 16).ok(),
                    None => key.strip_prefix('#').and_then(|digits| digits.parse().ok()),
                },
            };
            code.and_then(char::from_u32).map_or(whole, |character| character.to_string())
        });
        assert_eq!(decode_html_entities(&text), expected, "{text}");
    }
}

#[test]
fn escapes_agree_with_their_regular_expressions() {
    let four = Regex::new(r"\\u([0-9a-fA-F]{4})").unwrap();
    let two = Regex::new(r"\\x([0-9a-fA-F]{2})").unwrap();
    let pieces = ["\\", "\\u", "\\x", "\\/", "/", "u", "x", "0", "00", "4", "1", "5C", "d8", "Ff", "g"];
    for text in texts(&pieces, 20_000) {
        let slashes = text.replace("\\/", "/");
        let first = four.replace_all(&slashes, |captures: &Captures<'_>| number(captures, 16));
        let expected = two.replace_all(&first, |captures: &Captures<'_>| number(captures, 16));
        assert_eq!(decode_backslash_escapes(&text), expected, "{text}");
    }
}
