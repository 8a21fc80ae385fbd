use pdf_ocr::markdown::{
    assemble_markdown, build_frontmatter, build_toc, clean_markdown,
    normalize_compact_bullets, slug_from_lowercase, slugify, yaml_string,
};
use pdf_ocr::pdf::PdfInfo;

fn empty_info(page_count: usize) -> PdfInfo {
    PdfInfo {
        title: None,
        author: None,
        creator: None,
        producer: None,
        page_count,
        pages: Vec::new(),
    }
}

#[test]
fn cleans_code_fence_wrapped_markdown() {
    let cleaned = clean_markdown("```markdown\n# Title\n\nContent\n```");
    assert_eq!(cleaned, "# Title\n\nContent");
}

#[test]
fn removes_ocr_artifacts_and_expands_compact_bullets() {
    let cleaned = clean_markdown(
        "sub_title[[1, 2, 3, 4]]\n## Items\ntext[[1, 2, 3, 4]]\n- Alpha- Beta- Gamma",
    );

    assert_eq!(cleaned, "## Items\n- Alpha\n- Beta\n- Gamma");
}

#[test]
fn builds_table_of_contents_for_headings() {
    let pdf = empty_info(1);
    let markdown = assemble_markdown(
        &pdf,
        "demo.pdf",
        &[(1, "# Heading\n\n## Sub Heading".to_string())],
        &chrono::Utc::now().to_rfc3339(),
    );

    assert!(markdown.contains("## Table of Contents"));
    assert!(markdown.contains("[Heading](#heading)"));
    assert!(markdown.contains("[Sub Heading](#sub-heading)"));
}

#[test]
fn clean_markdown_normalizes_crlf_and_collapses_blank_lines() {
    let cleaned = clean_markdown("  Line one\r\n\r\n\r\n\r\nLine two\r\n\n\n\n");
    assert_eq!(cleaned, "Line one\n\nLine two");
}

#[test]
fn clean_markdown_strips_plain_fence_and_trailing_blanks() {
    assert_eq!(clean_markdown("  ```\nText\n```  \n"), "Text");
    assert_eq!(clean_markdown("no fence here"), "no fence here");
}

#[test]
fn clean_markdown_keeps_inline_brackets_that_are_not_artifacts() {
    assert_eq!(clean_markdown("see [[note]] here"), "see [[note]] here");
    assert_eq!(clean_markdown("box[[1, 2]] tail"), "box[[1, 2]] tail");
    assert_eq!(clean_markdown("a\nbox[[1, 2]]\n\n\nb"), "a\nb");
}

#[test]
fn clean_markdown_removes_artifact_at_end_of_text() {
    assert_eq!(clean_markdown("Intro\nimage[[10, 20, 30, 40]]"), "Intro");
}

#[test]
fn normalize_compact_bullets_splits_only_repeated_markers() {
    assert_eq!(
        normalize_compact_bullets("  - One- Two"),
        vec!["- One".to_string(), "- Two".to_string()]
    );
    assert_eq!(normalize_compact_bullets("- Single item"), vec!["- Single item".to_string()]);
    assert_eq!(normalize_compact_bullets("plain - text - here"), vec!["plain - text - here".to_string()]);
    assert_eq!(
        normalize_compact_bullets("- a- - b"),
        vec!["- a".to_string(), "- b".to_string()]
    );
}

#[test]
fn slugify_lowercases_and_dashes() {
    assert_eq!(slugify("Sub Heading"), "sub-heading");
    assert_eq!(slugify("  Hello, World!  "), "hello-world");
    assert_eq!(slugify("Über Größe"), "ber-gr-e");
    assert_eq!(slug_from_lowercase("--a--b--"), "a-b");
    assert_eq!(slug_from_lowercase("!!!"), "");
}

#[test]
fn yaml_string_escapes_backslashes_and_quotes() {
    assert_eq!(yaml_string("plain"), "\"plain\"");
    assert_eq!(yaml_string("a \"b\" c\\d"), "\"a \\\"b\\\" c\\\\d\"");
}

#[test]
fn build_toc_indents_by_level_and_ignores_non_headings() {
    let toc = build_toc("# One\ntext\n### Three  \n####### seven\n#nospace\n##   \n## Two");
    assert_eq!(
        toc,
        "- [One](#one)\n    - [Three](#three)\n  - [Two](#two)"
    );
    assert_eq!(build_toc("no headings"), "");
}

#[test]
fn frontmatter_lists_present_metadata_only() {
    let pdf = PdfInfo {
        title: Some("A \"Title\"".to_string()),
        author: Some(String::new()),
        creator: None,
        producer: Some("Producer".to_string()),
        page_count: 3,
        pages: Vec::new(),
    };
    let fm = build_frontmatter(&pdf, "in/doc.pdf", "2024-01-01T00:00:00+00:00");
    assert_eq!(
        fm,
        "---\nsource_pdf: \"in/doc.pdf\"\npages: 3\ngenerated_at: \"2024-01-01T00:00:00+00:00\"\ntitle: \"A \\\"Title\\\"\"\nproducer: \"Producer\"\n---"
    );
}

#[test]
fn assembled_document_has_frontmatter_toc_and_page_blocks() {
    let pdf = empty_info(2);
    let doc = assemble_markdown(
        &pdf,
        "demo.pdf",
        &[(1, "# A".to_string()), (2, "text".to_string())],
        "T",
    );
    assert_eq!(
        doc,
        "---\nsource_pdf: \"demo.pdf\"\npages: 2\ngenerated_at: \"T\"\n---\n## Table of Contents\n\n- [A](#a)\n\n<!-- page: 1 -->\n# A\n\n<!-- page: 2 -->\ntext\n"
    );
    let plain = assemble_markdown(&pdf, "demo.pdf", &[(7, "body".to_string())], "T");
    assert_eq!(
        plain,
        "---\nsource_pdf: \"demo.pdf\"\npages: 2\ngenerated_at: \"T\"\n---\n<!-- page: 7 -->\nbody\n"
    );
}

#[test]
fn slugs_are_their_own_slugs() {
    for input in ["Sub Heading", "  Hello, World!  ", "Über Größe", "ÄÖÜ -- Mixed_Case 42", "---", ""] {
        let once = slugify(input);
        assert_eq!(slugify(&once), once);
    }
}

#[test]
fn normalised_bullet_lines_stay_as_they_are() {
    for line in ["  - One- Two", "- a- - b", "- x -  - y- z", "plain - text - here", "-  - - "] {
        for produced in normalize_compact_bullets(line) {
            assert_eq!(normalize_compact_bullets(&produced), vec![produced.clone()]);
        }
    }
}

#[test]
fn cleaned_markdown_is_trimmed_without_blank_runs() {
    for raw in ["\n\n\nA\n\n\n\nB\n\n\n", "```\n\n\nx\n\n\n\n```", "t[[1]]\n\n\n\nend  \n"] {
        let cleaned = clean_markdown(raw);
        assert_eq!(cleaned.trim(), cleaned);
        assert!(!cleaned.contains("\n\n\n"));
    }
}

#[test]
fn table_of_contents_is_empty_only_without_headings() {
    assert_eq!(build_toc("text\n#no\n####### seven"), "");
    assert_eq!(build_toc("text\n## Found"), "  - [Found](#found)");
}
