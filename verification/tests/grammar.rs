//! The tag grammar against the regular expressions of the format's tag table, on many
//! generated strings.
use aviutl_text::scan::char_is_whitespace;
use aviutl_text::tags::control_sequence_length;
use aviutl_text::Decimal;
use lazy_regex::Regex;

const NUM: &str = r"(?:[0-9]+(?:\.[0-9]+)?|\.[0-9]+)";

fn tag_table() -> Vec<(char, Regex)> {
    let pat = |p: String| Regex::new(&p).unwrap();
    vec![
        ('#', pat(r"^<#[^>]*>".to_string())),
        ('@', pat(r"^<@(?:[+-][BIS]+|[^>]*)>".to_string())),
        ('$', pat(r"^<\$[^>]*>".to_string())),
        (
            's',
            pat(format!(
                r"^<s(?:[+-]?{n}|\*{n})?(?:,[^,]*(?:,[BIS]*)?(?:,{n})?)?>",
                n = NUM
            )),
        ),
        ('r', pat(format!(r"^<r{n}?>", n = NUM))),
        ('w', pat(format!(r"^<w(?:\*{n}|{n})?>", n = NUM))),
        ('c', pat(r"^<c(?:\*?[0-9.]+)?>".to_string())),
        (
            'p',
            pat(format!(
                r"^<p(?:(?:[+-]?{n})?(?:,(?:[+-]?{n})?(?:,(?:[+-]?{n})?)?)?)?>",
                n = NUM
            )),
        ),
        ('g', pat(format!(r"^<g[wh]{n}?>", n = NUM))),
        ('t', pat(format!(r"^<t(?:[wh]{n}?|r(?:[+-]?{n})?)>", n = NUM))),
        ('?', pat(r"^<\?=?[\s\S]*?\?>".to_string())),
        ('/', pat(r"^<//[\s\S]*?//>".to_string())),
        ('/', pat(format!(r"^</>[\s\S]*?<!((?:{n})?)(\+)?>[\s\S]*?</>", n = NUM))),
    ]
}

fn slash_len(table: &[(char, Regex)], input: &str) -> usize {
    let comment = &table[table.len() - 2].1;
    let ruby = &table[table.len() - 1].1;
    if let Some(m) = comment.find(input) {
        return m.as_str().chars().count();
    }
    if let Some(m) = ruby.find(input) {
        return m.as_str().chars().count();
    }
    if input.starts_with("</>") {
        3
    } else {
        0
    }
}

fn expected_len(table: &[(char, Regex)], input: &str) -> usize {
    let mut chars = input.chars();
    if chars.next() != Some('<') {
        return 0;
    }
    let next = match chars.next() {
        Some(c) => c,
        None => return 0,
    };
    if next == '/' {
        return slash_len(table, input);
    }
    for (letter, re) in table {
        if *letter == next {
            return re.find(input).map(|m| m.as_str().chars().count()).unwrap_or(0);
        }
    }
    0
}

struct Lcg(u64);

impl Lcg {
    fn next(&mut self) -> u64 {
        self.0 = self.0.wrapping_mul(6364136223846793005).wrapping_add(1442695040888963407);
        self.0 >> 33
    }
}

fn compare(alphabet: &[char], prefixes: &[&str], rounds: usize, max_len: u64, seed: u64) {
    let table = tag_table();
    let mut rng = Lcg(seed);
    for round in 0..rounds {
        let prefix = prefixes[round % prefixes.len()];
        let mut s = String::from(prefix);
        let len = rng.next() % max_len;
        for _ in 0..len {
            s.push(alphabet[(rng.next() % alphabet.len() as u64) as usize]);
        }
        let chars: Vec<char> = s.chars().collect();
        let got = control_sequence_length(&chars, 0);
        let want = expected_len(&table, &s);
        assert_eq!(got, want, "on {:?}", s);
    }
}

#[test]
fn numeric_tags_match_the_tag_table() {
    let alphabet: Vec<char> = "0123456789..+-*,>>< whrBIS".chars().collect();
    compare(&alphabet, &["<r", "<w", "<c", "<p", "<gw", "<gh", "<g", "<tw", "<th", "<tr", "<t"], 60000, 10, 7);
}

#[test]
fn size_tags_match_the_tag_table() {
    let alphabet: Vec<char> = "0123456789.+-*,,,>>BIS a<".chars().collect();
    compare(&alphabet, &["<s", "<s1", "<s+1", "<s*2", "<s1,", "<s1,f,"], 60000, 14, 11);
}

#[test]
fn closed_tags_match_the_tag_table() {
    let alphabet: Vec<char> = "ab,>+-BIS=?<#@$".chars().collect();
    compare(&alphabet, &["<#", "<@", "<$", "<?", "<@+", "<@-", "<?="], 40000, 10, 13);
}

#[test]
fn slash_tags_match_the_tag_table() {
    let alphabet: Vec<char> = "</>!/.0123+a".chars().collect();
    compare(&alphabet, &["</", "<//", "</>", "</>a<!", "</>x<!0.5+>"], 60000, 16, 17);
}

#[test]
fn whitespace_is_unicode_white_space() {
    for c in (0u32..0x11000).filter_map(char::from_u32) {
        assert_eq!(char_is_whitespace(c), c.is_whitespace(), "on {:?}", c);
    }
}

/// The text that `f64` prints for the number that `s` writes, with `-0` as `0`.
fn float_text(s: &str) -> String {
    let v: f64 = s.parse().unwrap();
    let v = if v == 0.0 { 0.0 } else { v };
    v.to_string()
}

#[test]
fn decimals_print_as_floats_do() {
    let mut rng = Lcg(5);
    let digits: Vec<char> = "0123456789".chars().collect();
    for _ in 0..20000 {
        let mut s = String::new();
        match rng.next() % 3 {
            0 => s.push('-'),
            1 => s.push('+'),
            _ => {}
        }
        let int_len = rng.next() % 5;
        for _ in 0..int_len {
            s.push(digits[(rng.next() % 10) as usize]);
        }
        let frac_len = rng.next() % 5;
        if frac_len > 0 || int_len == 0 {
            s.push('.');
            for _ in 0..frac_len.max(1) {
                s.push(digits[(rng.next() % 10) as usize]);
            }
        }
        let d = Decimal::parse(&s).unwrap();
        assert_eq!(d.to_text(), float_text(&s), "on {:?}", s);
    }
}
