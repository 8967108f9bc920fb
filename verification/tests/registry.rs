use babelfish::prompts::{
    identify_prompt, load_prompts, PromptFile, PORTUGUESE_ENGLISH_FILE,
    PORTUGUESE_ENGLISH_PROMPT, SPANISH_ENGLISH_FILE, SPANISH_ENGLISH_PROMPT,
};

fn file(name: &str, contents: &str) -> PromptFile {
    PromptFile { file_name: name.to_string(), contents: contents.to_string() }
}

fn names(files: Vec<PromptFile>) -> Vec<String> {
    load_prompts(files).pairs.into_iter().map(|p| p.name).collect()
}

#[test]
fn prompt_file_is_named_by_its_stem() {
    assert_eq!(identify_prompt("es_en.md"), Some("es_en".to_string()));
    assert_eq!(identify_prompt("a.b.md"), Some("a.b".to_string()));
    assert_eq!(identify_prompt("with space.md"), Some("with space".to_string()));
    assert_eq!(identify_prompt("readme2.md"), Some("readme2".to_string()));
    assert_eq!(identify_prompt("..md"), Some(".".to_string()));
}

#[test]
fn other_extensions_are_no_prompt_files() {
    for name in ["notes.txt", "es_en.MD", "es_en.Md", "es_en.md.bak", "es_en.mdx", "es_en.", "es_en", ""] {
        assert_eq!(identify_prompt(name), None, "{:?}", name);
    }
}

#[test]
fn leading_dot_alone_makes_no_extension() {
    assert_eq!(identify_prompt(".md"), None);
    assert_eq!(identify_prompt("md"), None);
    assert_eq!(identify_prompt("."), None);
    assert_eq!(identify_prompt(".."), None);
}

#[test]
fn reserved_stem_is_never_a_prompt_in_any_case() {
    for name in ["readme.md", "README.md", "ReadMe.md", "rEADME.md", "README.MD", "readme.txt", "Readme"] {
        assert_eq!(identify_prompt(name), None, "{:?}", name);
    }
}

#[test]
fn identification_agrees_with_paths_of_std() {
    for name in ["es_en.md", "a.b.md", ".md", "x.", "plain", "README.md", ".hidden.md", "x.md.md", "..md"] {
        let path = std::path::Path::new(name);
        let expected = if path.extension().and_then(|e| e.to_str()) == Some("md") {
            path.file_stem()
                .and_then(|s| s.to_str())
                .filter(|s| !s.eq_ignore_ascii_case("readme"))
                .map(|s| s.to_string())
        } else {
            None
        };
        assert_eq!(identify_prompt(name), expected, "{:?}", name);
    }
}

#[test]
fn empty_directory_gives_the_two_built_in_pairs() {
    let loaded = load_prompts(Vec::new());
    assert_eq!(loaded.pairs.len(), 2);
    assert_eq!(loaded.pairs[0].name, "es_en");
    assert_eq!(loaded.pairs[0].label, "ES \u{2194} EN");
    assert_eq!(loaded.pairs[0].prompt, SPANISH_ENGLISH_PROMPT.trim());
    assert_eq!(loaded.pairs[1].name, "pt_en");
    assert_eq!(loaded.pairs[1].label, "PT \u{2194} EN");
    assert_eq!(loaded.pairs[1].prompt, PORTUGUESE_ENGLISH_PROMPT.trim());
}

#[test]
fn empty_directory_asks_for_exactly_two_files() {
    let loaded = load_prompts(Vec::new());
    assert_eq!(
        loaded.materialize,
        vec![
            file(SPANISH_ENGLISH_FILE, SPANISH_ENGLISH_PROMPT),
            file(PORTUGUESE_ENGLISH_FILE, PORTUGUESE_ENGLISH_PROMPT),
        ]
    );
    assert_eq!(loaded.materialize[0].file_name, "es_en.md");
    assert_eq!(loaded.materialize[1].file_name, "pt_en.md");
}

#[test]
fn built_in_files_load_as_the_built_in_pairs() {
    let first = load_prompts(Vec::new());
    let second = load_prompts(first.materialize.clone());
    assert!(second.materialize.is_empty());
    assert_eq!(second.pairs.len(), 2);
    for (a, b) in first.pairs.iter().zip(second.pairs.iter()) {
        assert!(a == b);
    }
}

#[test]
fn built_in_prompts_are_not_empty_after_trimming() {
    for pair in load_prompts(Vec::new()).pairs {
        assert!(!pair.prompt.is_empty());
        assert_eq!(pair.prompt, pair.prompt.trim());
    }
}

#[test]
fn directory_without_prompt_files_gives_the_built_in_pairs() {
    let loaded = load_prompts(vec![
        file("README.md", "about this directory"),
        file("notes.txt", "not a prompt"),
        file("config.json", "{}"),
    ]);
    assert_eq!(loaded.pairs.iter().map(|p| p.name.as_str()).collect::<Vec<_>>(), vec!["es_en", "pt_en"]);
    assert_eq!(loaded.materialize.len(), 2);
}

#[test]
fn pairs_are_sorted_by_identifier() {
    let found = names(vec![
        file("pt_en.md", "p"),
        file("es_en.md", "e"),
        file("de_en.md", "d"),
        file("Zulu.md", "z"),
        file("es.md", "s"),
    ]);
    assert_eq!(found, vec!["Zulu", "de_en", "es", "es_en", "pt_en"]);
}

#[test]
fn order_of_the_directory_does_not_matter() {
    let one = names(vec![file("b.md", "2"), file("a.md", "1"), file("c.md", "3")]);
    let two = names(vec![file("c.md", "3"), file("b.md", "2"), file("a.md", "1")]);
    assert_eq!(one, vec!["a", "b", "c"]);
    assert_eq!(one, two);
}

#[test]
fn prompts_are_trimmed_and_labels_derived() {
    let loaded = load_prompts(vec![file("fr_en.md", "\n  Translate French.\n\n")]);
    assert_eq!(loaded.pairs.len(), 1);
    assert_eq!(loaded.pairs[0].name, "fr_en");
    assert_eq!(loaded.pairs[0].label, "FR \u{2194} EN");
    assert_eq!(loaded.pairs[0].prompt, "Translate French.");
    assert!(loaded.materialize.is_empty());
}

#[test]
fn reserved_files_are_skipped_wherever_they_stand() {
    let prompt = file("fr_en.md", "Translate French.");
    for reserved in ["readme.md", "README.md", "ReadMe.md"] {
        let front = names(vec![file(reserved, "doc"), prompt.clone()]);
        let back = names(vec![prompt.clone(), file(reserved, "doc")]);
        assert_eq!(front, vec!["fr_en"]);
        assert_eq!(back, vec!["fr_en"]);
    }
}

#[test]
fn blank_prompt_file_names_no_pair() {
    let found = names(vec![file("fr_en.md", "  \n"), file("de_en.md", "Translate German.")]);
    assert_eq!(found, vec!["de_en"]);
    let found = names(vec![file("de_en.md", "Translate German."), file("fr_en.md", "")]);
    assert_eq!(found, vec!["de_en"]);
}

#[test]
fn directory_of_blank_prompt_files_gives_the_built_in_pairs() {
    let loaded = load_prompts(vec![file("fr_en.md", "  \n"), file("es_en.md", "\u{a0}\t")]);
    assert_eq!(loaded.pairs.len(), 2);
    assert_eq!(loaded.pairs[0].name, "es_en");
    assert_eq!(loaded.pairs[0].prompt, SPANISH_ENGLISH_PROMPT.trim());
    assert_eq!(loaded.pairs[1].name, "pt_en");
    assert_eq!(loaded.materialize.len(), 2);
}

#[test]
fn no_pair_is_offered_without_a_prompt() {
    let directories = vec![
        Vec::new(),
        vec![file("a.md", ""), file("b.md", " \r\n ")],
        vec![file("a.md", " x "), file("b.md", "\n"), file("README.md", "")],
        vec![file("a.md", "\u{3000}y\u{2003}")],
    ];
    for files in directories {
        let loaded = load_prompts(files);
        assert!(!loaded.pairs.is_empty());
        for pair in &loaded.pairs {
            assert!(!pair.prompt.is_empty());
            assert_eq!(pair.prompt, pair.prompt.trim());
        }
    }
}

#[test]
fn same_name_is_offered_once() {
    let loaded = load_prompts(vec![
        file("x.md", "first"),
        file("a.md", "other"),
        file("x.md", "second"),
    ]);
    let prompts: Vec<&str> = loaded.pairs.iter().map(|p| p.prompt.as_str()).collect();
    assert_eq!(prompts, vec!["other", "first"]);
}

#[test]
fn names_that_differ_in_case_only_are_offered_once() {
    let found = names(vec![
        file("es_en.md", "lower"),
        file("fa_en.md", "between"),
        file("ES_EN.md", "upper"),
        file("Es_En.md", "mixed"),
    ]);
    assert_eq!(found, vec!["ES_EN", "fa_en"]);
    let found = names(vec![
        file("Es_En.md", "mixed"),
        file("ES_EN.md", "upper"),
        file("fa_en.md", "between"),
        file("es_en.md", "lower"),
    ]);
    assert_eq!(found, vec!["ES_EN", "fa_en"]);
}

#[test]
fn names_of_a_registry_differ_even_without_regard_to_case() {
    let loaded = load_prompts(vec![
        file("b.md", "1"),
        file("B.md", "2"),
        file("a.md", "3"),
        file("A.md", "4"),
        file("c.md", "5"),
    ]);
    let names: Vec<&str> = loaded.pairs.iter().map(|p| p.name.as_str()).collect();
    assert_eq!(names, vec!["A", "B", "c"]);
    for (i, a) in names.iter().enumerate() {
        for b in &names[i + 1..] {
            assert!(!a.eq_ignore_ascii_case(b));
            assert!(a < b);
        }
    }
}
