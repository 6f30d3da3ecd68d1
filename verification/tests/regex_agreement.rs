//! The scanner, held against the regular expressions that describe the same
//! call shapes.

use regex::Regex;
use revision_audit::classify::{classify_call, find_revision, has_credential_flag, has_local_path};
use revision_audit::identifier::is_commit_sha;
use revision_audit::scan::{find_call, scan_code_for_usage};
use revision_audit::status::Status;

const SHAPES: [(&str, &str); 5] = [
    ("AutoModel.from_pretrained", r"AutoModel\.from_pretrained\s*\((?s:.*?)\)"),
    ("AutoTokenizer.from_pretrained", r"AutoTokenizer\.from_pretrained\s*\((?s:.*?)\)"),
    ("load_dataset", r"load_dataset\s*\((?s:.*?)\)"),
    ("hf_hub_download", r"hf_hub_download\s*\((?s:.*?)\)"),
    ("snapshot_download", r"snapshot_download\s*\((?s:.*?)\)"),
];

/// The grammar of the scanner, written as regular expressions.
struct Patterns {
    sha: Regex,
    exempt: Regex,
    credential: Regex,
    local: Regex,
    revision: Regex,
    shapes: Vec<Regex>,
}

impl Patterns {
    fn new() -> Patterns {
        Patterns {
            sha: Regex::new(r"^[a-f0-9]{40}$").unwrap(),
            exempt: Regex::new(r#"use_auth_token\s*=\s*True|^[^(]*\(["'](\./|/)"#).unwrap(),
            credential: Regex::new(r"use_auth_token\s*=\s*True").unwrap(),
            local: Regex::new(r#"^[^(]*\(["'](\./|/)"#).unwrap(),
            revision: Regex::new(r#"revision\s*=\s*["']([^"']+)["']"#).unwrap(),
            shapes: SHAPES.iter().map(|(_, pattern)| Regex::new(pattern).unwrap()).collect(),
        }
    }

    fn classify(&self, call: &str) -> Status {
        if self.exempt.is_match(call) {
            return Status::Safe;
        }
        match self.revision.captures(call) {
            Some(found) => {
                if self.sha.is_match(&found[1]) {
                    Status::Safe
                } else {
                    Status::PartiallySafe
                }
            }
            None => Status::Unsafe,
        }
    }

    fn scan(&self, code: &str) -> (usize, usize, usize) {
        let mut counts = (0, 0, 0);
        for shape in &self.shapes {
            for found in shape.find_iter(code) {
                match self.classify(found.as_str()) {
                    Status::Safe => counts.0 += 1,
                    Status::PartiallySafe => counts.1 += 1,
                    Status::Unsafe => counts.2 += 1,
                }
            }
        }
        counts
    }
}

fn chars(s: &str) -> Vec<char> {
    s.chars().collect()
}

/// The index of a byte of `text`, counted in characters.
fn char_index(text: &str, byte: usize) -> usize {
    text[..byte].chars().count()
}

/// Holds every part of the scanner against the patterns on one text.
fn agree(patterns: &Patterns, text: &str) {
    let text_chars = chars(text);
    assert_eq!(is_commit_sha(text), patterns.sha.is_match(text), "identifier {:?}", text);
    assert_eq!(
        has_credential_flag(&text_chars),
        patterns.credential.is_match(text),
        "credential flag in {:?}",
        text
    );
    assert_eq!(has_local_path(&text_chars), patterns.local.is_match(text), "local path in {:?}", text);
    let revision: Option<String> = find_revision(&text_chars).map(|r| r.iter().collect());
    let expected: Option<String> = patterns.revision.captures(text).map(|c| c[1].to_string());
    assert_eq!(revision, expected, "revision in {:?}", text);
    assert_eq!(classify_call(&text_chars), patterns.classify(text), "tier of {:?}", text);
    for (i, (name, _)) in SHAPES.iter().enumerate() {
        let name_chars = chars(name);
        let mut from = 0;
        let mut found = Vec::new();
        while let Some((start, end)) = find_call(&text_chars, &name_chars, from) {
            found.push((start, end));
            from = end;
        }
        let expected: Vec<(usize, usize)> = patterns.shapes[i]
            .find_iter(text)
            .map(|m| (char_index(text, m.start()), char_index(text, m.end())))
            .collect();
        assert_eq!(found, expected, "calls of {} in {:?}", name, text);
    }
    assert_eq!(scan_code_for_usage(text), patterns.scan(text), "counts of {:?}", text);
}

const SHA: &str = "5d0f2e8a7f1b2c3d4e5f6a7b8c9d0e1f2a3b4c5d";

#[test]
fn chosen_texts_agree() {
    let patterns = Patterns::new();
    let texts = [
        "",
        "x",
        SHA,
        "AutoModel.from_pretrained(\"model\")",
        "AutoModel.from_pretrained(\"model\", revision=\"main\")",
        "AutoModel.from_pretrained(\"model\", revision=\"5d0f2e8a7f1b2c3d4e5f6a7b8c9d0e1f2a3b4c5d\")",
        "AutoModel.from_pretrained(\"model\", revision='5d0f2e8a7f1b2c3d4e5f6a7b8c9d0e1f2a3b4c5d\n')",
        "AutoModel.from_pretrained(\"./model\")",
        "AutoModel.from_pretrained('/model')",
        "AutoModel.from_pretrained ('/model')",
        "AutoModel.from_pretrained( '/model')",
        "AutoModel.from_pretrained('.model')",
        "AutoModel.from_pretrained\n('./model')",
        "AutoModel.from_pretrained(f('./model'))",
        "load_dataset(\"./data\")",
        "load_dataset('/data', revision='main')",
        "load_dataset( './data')",
        "load_dataset('data', './data')",
        "load_dataset(AutoModel.from_pretrained('./model'))",
        "hf_hub_download('/repo', 'file')",
        "hf_hub_download(repo_id='/repo')",
        "snapshot_download (\"./repo\")",
        "snapshot_download('.')",
        "snapshot_download('./",
        "('/",
        "'/'('/')",
        "AutoModel.from_pretrained(f(), revision='main')",
        "AutoModel.from_pretrained((()))",
        "AutoModel.from_pretrained",
        "AutoModel.from_pretrained(",
        "AutoModel.from_pretrained)",
        "AutoModel.from_pretrained)(",
        "AutoModel.from_pretrained()",
        "AutoModel.from_pretrained \t\r\n\u{b}\u{c}\u{85}\u{a0}\u{1680}\u{2000}\u{200a}\u{2028}\u{2029}\u{202f}\u{205f}\u{3000}()",
        "AutoModel.from_pretrained\u{200b}()",
        "AutoModel.from_pretrained\u{feff}()",
        "AutoModel.from_pretrained\u{1c}()",
        "AutoModel.from_pretrained\u{180e}()",
        "AutoModel\u{2e}from_pretrained()",
        "AutoModelxfrom_pretrained()",
        "automodel.from_pretrained()",
        "AutoModel.from_pretrained(AutoModel.from_pretrained())",
        "AutoModel.from_pretrained(AutoTokenizer.from_pretrained(load_dataset()))",
        "AutoTokenizer.from_pretrained('t', use_auth_token=True)",
        "AutoTokenizer.from_pretrained('t', use_auth_token = True)",
        "AutoTokenizer.from_pretrained('t', use_auth_token\u{a0}=\u{3000}True)",
        "AutoTokenizer.from_pretrained('t', use_auth_token=true)",
        "AutoTokenizer.from_pretrained('t', use_auth_token==True)",
        "AutoTokenizer.from_pretrained('t', use_auth_token=Truest)",
        "load_dataset('d', revision = 'v1')",
        "load_dataset('d', revision\n=\n'v1')",
        "load_dataset('d', revision='')",
        "load_dataset('d', revision='', revision=\"x\")",
        "load_dataset('d', revision='unclosed)",
        "load_dataset('d', revision='mixed\")",
        "load_dataset('d', revision=main)",
        "load_dataset('d', revision=='main')",
        "load_dataset('d', revisionrevision='main')",
        "load_dataset('d', revision='\u{e9}t\u{e9}')",
        "load_dataset('d', revision='5d0f2e8a7f1b2c3d4e5f6a7b8c9d0e1f2a3b4c5d')",
        "load_dataset('d', revision='5d0f2e8a7f1b2c3d4e5f6a7b8c9d0e1f2a3b4c5')",
        "load_dataset('d', revision='5d0f2e8a7f1b2c3d4e5f6a7b8c9d0e1f2a3b4c5d1')",
        "load_dataset('d', revision='5D0F2E8A7F1B2C3D4E5F6A7B8C9D0E1F2A3B4C5D')",
        "load_dataset('d', revision=' 5d0f2e8a7f1b2c3d4e5f6a7b8c9d0e1f2a3b4c5d')",
        "load_dataset('d', revision='x', use_auth_token=True)",
        "load_datasetload_dataset()load_dataset()",
        "load_dataset()load_dataset()load_dataset()",
        "load_dataset(\n)\nload_dataset\n(\n)\n",
        "hf_hub_download(repo_id='r', filename='f', revision='main')",
        "snapshot_download(repo_id='r')",
        "snapshot_download(repo_id='r' # comment with ) inside\n, revision='main')",
        "revision='main'",
        "use_auth_token=True",
        "from_pretrained('/x')",
        "from_pretrained(\"./",
        "\u{1f600} load_dataset('\u{1f600}') \u{1f600}",
        "\u{e9}load_dataset(\u{e9})\u{e9}snapshot_download(\u{e9}",
    ];
    for text in texts {
        agree(&patterns, text);
    }
}

#[test]
fn forty_characters_agree() {
    let patterns = Patterns::new();
    let alphabet = ['0', '9', 'a', 'f', 'g', 'A', 'F', '/', ':', '`', '\n', '\u{e9}', '\u{ff10}'];
    let base = chars(SHA);
    for at in 0..40 {
        for c in alphabet {
            let mut changed = base.clone();
            changed[at] = c;
            let text: String = changed.iter().collect();
            assert_eq!(is_commit_sha(&text), patterns.sha.is_match(&text), "{:?}", text);
        }
    }
    for len in 0..45 {
        let text = "a".repeat(len);
        assert_eq!(is_commit_sha(&text), patterns.sha.is_match(&text), "{:?}", text);
        assert_eq!(is_commit_sha(&text), len == 40);
    }
}

/// A small generator of numbers that look random and are the same in every
/// run.
struct Dice(u64);

impl Dice {
    fn roll(&mut self, sides: usize) -> usize {
        self.0 = self.0.wrapping_mul(6364136223846793005).wrapping_add(1442695040888963407);
        ((self.0 >> 33) as usize) % sides
    }
}

const PIECES: [&str; 44] = [
    "AutoModel.from_pretrained", "AutoTokenizer.from_pretrained", "load_dataset",
    "hf_hub_download", "snapshot_download", "from_pretrained(", "from_pretrained", "AutoModel.",
    "(", ")", "(", ")", " ", "\n", "\t", "\u{a0}", "\u{200b}", "=", "=", "\"", "'", "\"", "'", ",",
    ".", "/", "./", "revision", "revision", "revision=", "use_auth_token", "use_auth_token=True",
    "True", "False", "main", "v1.0", SHA, "5d0f2e8a7f1b2c3d4e5f6a7b8c9d0e1f2a3b4c5", "model",
    "\u{e9}", "\u{1f600}", "#", "x", "_",
];

#[test]
fn made_up_texts_agree() {
    let patterns = Patterns::new();
    let mut dice = Dice(2024);
    for _ in 0..4000 {
        let pieces = 1 + dice.roll(24);
        let mut text = String::new();
        for _ in 0..pieces {
            text.push_str(PIECES[dice.roll(PIECES.len())]);
        }
        agree(&patterns, &text);
    }
}

#[test]
fn made_up_calls_agree() {
    // Texts that look like calls more often than not.
    let patterns = Patterns::new();
    let mut dice = Dice(7);
    let names = ["AutoModel.from_pretrained", "AutoTokenizer.from_pretrained", "load_dataset",
        "hf_hub_download", "snapshot_download"];
    let spaces = ["", "", " ", "\n", " \t ", "\u{2003}"];
    let quotes = ["\"", "'"];
    let firsts = ["model", "./model", "/model", "../model", "org/model", ""];
    let revisions = ["main", "v1.0", SHA, "", "5D0F2E8A7F1B2C3D4E5F6A7B8C9D0E1F2A3B4C5D", "a b"];
    for _ in 0..4000 {
        let mut text = String::new();
        for _ in 0..(1 + dice.roll(4)) {
            text.push_str(names[dice.roll(names.len())]);
            text.push_str(spaces[dice.roll(spaces.len())]);
            text.push('(');
            text.push_str(spaces[dice.roll(spaces.len())]);
            let quote = quotes[dice.roll(2)];
            text.push_str(quote);
            text.push_str(firsts[dice.roll(firsts.len())]);
            text.push_str(quote);
            for _ in 0..dice.roll(3) {
                text.push(',');
                text.push_str(spaces[dice.roll(spaces.len())]);
                match dice.roll(4) {
                    0 => {
                        text.push_str("use_auth_token");
                        text.push_str(spaces[dice.roll(spaces.len())]);
                        text.push('=');
                        text.push_str(spaces[dice.roll(spaces.len())]);
                        text.push_str(["True", "False", "token"][dice.roll(3)]);
                    }
                    1 => text.push_str("trust_remote_code=True"),
                    _ => {
                        text.push_str("revision");
                        text.push_str(spaces[dice.roll(spaces.len())]);
                        text.push('=');
                        text.push_str(spaces[dice.roll(spaces.len())]);
                        let quote = quotes[dice.roll(2)];
                        text.push_str(quote);
                        text.push_str(revisions[dice.roll(revisions.len())]);
                        text.push_str(quotes[dice.roll(2)]);
                    }
                }
            }
            if dice.roll(8) != 0 {
                text.push(')');
            }
            text.push_str(spaces[dice.roll(spaces.len())]);
        }
        agree(&patterns, &text);
    }
}
