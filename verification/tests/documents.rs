use ir::paths::Platform;
use ir::cli::RunSource;
use ir::quarto::{
    chunk_languages, closing_fence, executable_chunk_start, fence_start, frontmatter_engine,
    is_quarto_document, is_r_markdown, is_r_script, markdown_fence_line,
    quarto_reticulate_required, quarto_script_frontmatter_to_string, quarto_script_markdown,
    r_value, read_quarto_document_spec, read_quarto_script_spec, render_source_spec,
    spawn_error, strip_quarto_script_comment, Fence,
};
use ir::script::{parse_r_script_frontmatter, read_r_script_frontmatter_to_string, read_r_script_spec};
use ir::spec::{parse_quarto_frontmatter, parse_r_frontmatter, RuntimeSpec};
use ir::yaml::{load_first_yaml_document, mapping_get, YamlNode};

fn chars(s: &str) -> Vec<char> {
    s.chars().collect()
}

fn text(v: Option<Vec<char>>) -> Option<String> {
    v.map(|v| v.into_iter().collect())
}

fn fields(s: &RuntimeSpec) -> (Vec<String>, Option<String>, bool, Option<String>) {
    (s.dependencies.clone(), s.exclude_newer.clone(), s.isolated, s.r_requirement.clone())
}

fn is_empty_spec(s: &RuntimeSpec) -> bool {
    s.dependencies.is_empty()
        && s.exclude_newer.is_none()
        && !s.isolated
        && s.r_requirement.is_none()
        && s.rscript.is_none()
        && s.python.is_none()
        && !s.quarto_render
        && !s.quarto_reticulate
}

fn err(r: Result<RuntimeSpec, String>) -> String {
    match r {
        Ok(_) => panic!("expected an error"),
        Err(e) => e,
    }
}

#[test]
fn r_frontmatter_reads_every_field() {
    let spec = parse_r_frontmatter(
        "packages:\n  - cli\n  - dplyr>=1.0\nexclude-newer: ' 2024-01-01 '\nisolated: true\nr-version: '4.3'\n",
    )
    .unwrap();
    assert_eq!(
        fields(&spec),
        (
            vec!["cli".to_string(), "dplyr>=1.0".to_string()],
            Some("2024-01-01".to_string()),
            true,
            Some("4.3".to_string())
        )
    );
    assert!(!spec.quarto_render && !spec.quarto_reticulate);
    assert!(spec.rscript.is_none() && spec.python.is_none());
}

#[test]
fn blank_and_empty_frontmatter_ask_for_nothing() {
    assert!(is_empty_spec(&parse_r_frontmatter("").unwrap()));
    assert!(is_empty_spec(&parse_r_frontmatter("  \n\t\n").unwrap()));
    assert!(is_empty_spec(&parse_r_frontmatter("# only a comment\n").unwrap()));
    assert!(is_empty_spec(&parse_r_frontmatter("~\n").unwrap()));
    assert!(is_empty_spec(&parse_r_frontmatter("packages: ~\nexclude-newer: '  '\nisolated: ~\n").unwrap()));
}

#[test]
fn frontmatter_type_errors() {
    assert_eq!(err(parse_r_frontmatter("- cli\n")), "script frontmatter must be a YAML mapping");
    assert_eq!(err(parse_r_frontmatter("packages: cli\n")), "frontmatter `packages` must be a YAML sequence");
    assert_eq!(err(parse_r_frontmatter("packages: [cli, 3]\n")), "frontmatter `packages` entries must be strings");
    assert_eq!(err(parse_r_frontmatter("isolated: 'yes'\n")), "frontmatter `isolated` must be a boolean");
    assert_eq!(err(parse_r_frontmatter("r-version: 4.3\n")), "frontmatter `r-version` must be a string");
    assert_eq!(err(parse_r_frontmatter("exclude-newer: [a]\n")), "frontmatter `exclude-newer` must be a string");
    let e = err(parse_r_frontmatter("packages: [cli\n"));
    assert!(e.starts_with("could not parse script frontmatter as YAML: "), "{e}");
}

#[test]
fn packages_are_checked_before_the_other_fields() {
    assert_eq!(
        err(parse_r_frontmatter("isolated: 1\npackages: x\n")),
        "frontmatter `packages` must be a YAML sequence"
    );
    assert_eq!(
        err(parse_r_frontmatter("isolated: 1\nexclude-newer: 2\n")),
        "frontmatter `exclude-newer` must be a string"
    );
}

#[test]
fn quarto_frontmatter_reads_the_ir_mapping() {
    let spec = parse_quarto_frontmatter("title: Report\nir:\n  packages: [cli]\n  isolated: false\n").unwrap();
    assert_eq!(fields(&spec), (vec!["cli".to_string()], None, false, None));
    assert!(is_empty_spec(&parse_quarto_frontmatter("title: Report\n").unwrap()));
    assert!(is_empty_spec(&parse_quarto_frontmatter("ir: ~\n").unwrap()));
    assert!(is_empty_spec(&parse_quarto_frontmatter("   \n").unwrap()));
    assert!(is_empty_spec(&parse_quarto_frontmatter("~\n").unwrap()));
    assert_eq!(err(parse_quarto_frontmatter("ir: 3\n")), "frontmatter `ir` must be a YAML mapping");
    assert_eq!(err(parse_quarto_frontmatter("- a\n")), "script frontmatter must be a YAML mapping");
    assert_eq!(err(parse_quarto_frontmatter("ir:\n  packages: 1\n")), "frontmatter `packages` must be a YAML sequence");
}

#[test]
fn quarto_frontmatter_reads_only_the_first_document() {
    let doc = "---\nir:\n  r-version: '4.4'\n---\n\n# Title\n\n```{r}\n1 + 1\n```\n";
    let spec = parse_quarto_frontmatter(doc).unwrap();
    assert_eq!(fields(&spec), (vec![], None, false, Some("4.4".to_string())));
}

#[test]
fn yaml_documents_convert_to_nodes() {
    let doc = load_first_yaml_document("a: x\nb: [true, ~, 1]\n", "test").unwrap().unwrap();
    match mapping_get(&doc, "a") {
        Some(YamlNode::Text(s)) => assert_eq!(s, "x"),
        _ => panic!("a"),
    }
    match mapping_get(&doc, "b") {
        Some(YamlNode::Sequence(items)) => {
            assert_eq!(items.len(), 3);
            assert!(matches!(items[0], YamlNode::Bool(true)));
            assert!(matches!(items[1], YamlNode::Null));
            assert!(matches!(items[2], YamlNode::Other));
        }
        _ => panic!("b"),
    }
    assert!(mapping_get(&doc, "c").is_none());
    assert!(load_first_yaml_document("", "test").unwrap().is_none());
    let e = load_first_yaml_document("a: [", "the file").err().unwrap();
    assert!(e.starts_with("could not parse the file as YAML: "), "{e}");
}

#[test]
fn markdown_fence_lines() {
    assert_eq!(text(markdown_fence_line(&chars("   ```"))), Some("```".to_string()));
    assert_eq!(text(markdown_fence_line(&chars("> > ```{r}"))), Some("```{r}".to_string()));
    assert_eq!(text(markdown_fence_line(&chars(">```"))), Some("```".to_string()));
    assert_eq!(markdown_fence_line(&chars("    ```")), None);
    assert_eq!(markdown_fence_line(&chars("\t```")), None);
    assert_eq!(markdown_fence_line(&chars(">     ```")), None);
}

#[test]
fn fence_starts() {
    let (f, rest) = fence_start(&chars("````{r} ")).unwrap();
    assert_eq!((f.marker, f.count), ('`', 4));
    assert_eq!(rest.into_iter().collect::<String>(), "{r} ");
    let (f, _) = fence_start(&chars("~~~")).unwrap();
    assert_eq!((f.marker, f.count), ('~', 3));
    assert!(fence_start(&chars("``")).is_none());
    assert!(fence_start(&chars("text")).is_none());
    assert!(fence_start(&chars("")).is_none());
}

#[test]
fn closing_fences() {
    let three = Fence { marker: '`', count: 3 };
    assert!(closing_fence(&chars("```"), three));
    assert!(closing_fence(&chars("`````  "), three));
    assert!(!closing_fence(&chars("~~~"), three));
    assert!(!closing_fence(&chars("``` r"), three));
    assert!(!closing_fence(&chars("``"), three));
    let four = Fence { marker: '~', count: 4 };
    assert!(!closing_fence(&chars("~~~"), four));
    assert!(closing_fence(&chars("~~~~"), four));
}

#[test]
fn executable_chunk_starts() {
    let lang = |s: &str| executable_chunk_start(&chars(s)).map(|(l, f)| (l.into_iter().collect::<String>(), f.count));
    assert_eq!(lang("```{r}"), Some(("r".to_string(), 3)));
    assert_eq!(lang("```{Python, echo=FALSE}"), Some(("python".to_string(), 3)));
    assert_eq!(lang("```` { r label } "), Some(("r".to_string(), 4)));
    assert_eq!(lang("```{r_2}"), Some(("r_2".to_string(), 3)));
    assert_eq!(lang("```{=html}"), None);
    assert_eq!(lang("```{r}x"), None);
    assert_eq!(lang("```{r"), None);
    assert_eq!(lang("```{r-x}"), None);
    assert_eq!(lang("```r"), None);
}

#[test]
fn chunk_languages_skip_frontmatter_and_plain_fences() {
    let doc = "---\ntitle: x\n---\n\n```{r}\n1\n```\n\n```{python}\nprint(1)\n```\n";
    let c = chunk_languages(doc);
    assert!(c.has_r && c.has_python);
    let c = chunk_languages("````\n```{python}\n```\n````\n");
    assert!(!c.has_r && !c.has_python);
    let c = chunk_languages("> ```{python}\n> 1\n> ```\n");
    assert!(c.has_python && !c.has_r);
    let c = chunk_languages("---\n```{python}\n...\n");
    assert!(!c.has_python);
    let c = chunk_languages("~~~{r}\n```{python}\n~~~\n");
    assert!(c.has_r && !c.has_python);
    let c = chunk_languages("");
    assert!(!c.has_r && !c.has_python);
}

#[test]
fn frontmatter_engines() {
    let e = frontmatter_engine("engine: Knitr\n").unwrap();
    assert!(e.explicit_knitr && !e.explicit_jupyter);
    let e = frontmatter_engine("jupyter: python3\n").unwrap();
    assert!(!e.explicit_knitr && e.explicit_jupyter);
    let e = frontmatter_engine("execute:\n  engine: ' jupyter '\n").unwrap();
    assert!(e.explicit_jupyter);
    let e = frontmatter_engine("format:\n  html:\n    execute:\n      engine: knitr\n").unwrap();
    assert!(e.explicit_knitr && !e.explicit_jupyter);
    let e = frontmatter_engine("knitr: ~\nengine: markdown\n").unwrap();
    assert!(!e.explicit_knitr && !e.explicit_jupyter);
    let e = frontmatter_engine("- knitr\n").unwrap();
    assert!(!e.explicit_knitr && !e.explicit_jupyter);
    assert!(frontmatter_engine("a: [\n").is_err());
}

#[test]
fn source_kinds_by_extension() {
    assert!(is_quarto_document("doc.qmd", Platform::Linux) && is_quarto_document("DOC.Rmd", Platform::Linux));
    assert!(!is_quarto_document("doc.md", Platform::Linux) && !is_quarto_document("qmd", Platform::Linux));
    assert!(is_r_markdown("a.RMD", Platform::Linux) && !is_r_markdown("a.qmd", Platform::Linux));
    assert!(is_r_script("dir/a.R", Platform::Linux) && is_r_script("a.r", Platform::Linux) && !is_r_script("a.rs", Platform::Linux));
    assert!(!is_r_script("dir.r/file", Platform::Linux));
}

#[test]
fn reticulate_is_needed_for_python_chunks_under_knitr() {
    let py = "```{python}\n1\n```\n";
    assert_eq!(quarto_reticulate_required("a.qmd", "text\n", Platform::Linux), Ok(false));
    assert_eq!(quarto_reticulate_required("a.Rmd", py, Platform::Linux), Ok(true));
    assert_eq!(quarto_reticulate_required("a.R", py, Platform::Linux), Ok(true));
    let e = quarto_reticulate_required("a.qmd", py, Platform::Linux).unwrap_err();
    assert!(e.starts_with("could not parse script frontmatter as YAML: "), "{e}");
    let py_only = "---\ntitle: x\n---\n\n```{python}\n1\n```\n";
    assert_eq!(quarto_reticulate_required("a.qmd", py_only, Platform::Linux), Ok(false));
    let both = "---\ntitle: x\n---\n\n```{r}\n1\n```\n```{python}\n1\n```\n";
    assert_eq!(quarto_reticulate_required("a.qmd", both, Platform::Linux), Ok(true));
    let jupyter = "---\njupyter: python3\n---\n\n```{r}\n1\n```\n```{python}\n1\n```\n";
    assert_eq!(quarto_reticulate_required("a.qmd", jupyter, Platform::Linux), Ok(false));
    let tight = "---\njupyter: python3\n---\n```{r}\n1\n```\n```{python}\n1\n```\n";
    assert_eq!(quarto_reticulate_required("a.qmd", tight, Platform::Linux), Ok(false));
    let knitr = "---\nengine: knitr\n---\n\n```{python}\n1\n```\n";
    assert_eq!(quarto_reticulate_required("a.qmd", knitr, Platform::Linux), Ok(true));
}

#[test]
fn script_comments_become_markdown() {
    assert_eq!(text(strip_quarto_script_comment(&chars("#' text"))), Some("text".to_string()));
    assert_eq!(text(strip_quarto_script_comment(&chars("#'  two"))), Some(" two".to_string()));
    assert_eq!(text(strip_quarto_script_comment(&chars("#'"))), Some(String::new()));
    assert_eq!(strip_quarto_script_comment(&chars("# text")), None);
    assert_eq!(
        quarto_script_markdown("#' ---\n#' title: x\n#' ---\nx <- 1\n#'\n#' done\r\n"),
        "---\ntitle: x\n---\n\ndone\n"
    );
    assert_eq!(quarto_script_markdown(""), "");
}

#[test]
fn script_frontmatter_blocks() {
    assert_eq!(
        quarto_script_frontmatter_to_string("---  \nir:\n  isolated: true\n...\nrest\n"),
        "---  \nir:\n  isolated: true\n...\n"
    );
    assert_eq!(quarto_script_frontmatter_to_string("title\n---\n"), "");
    assert_eq!(quarto_script_frontmatter_to_string(""), "");
    assert_eq!(quarto_script_frontmatter_to_string("---\na: 1\n"), "---\na: 1\n");
}

#[test]
fn quarto_document_and_script_specs() {
    let doc = "---\nir:\n  packages: [cli]\n---\n\n```{r}\n1\n```\n```{python}\n1\n```\n";
    let spec = read_quarto_document_spec("report.qmd", doc, Platform::Linux).unwrap();
    assert_eq!(fields(&spec).0, vec!["cli".to_string()]);
    assert!(spec.quarto_reticulate && !spec.quarto_render);

    let script = "#' ---\n#' ir:\n#'   isolated: true\n#' ---\nx <- 1\n";
    let spec = read_quarto_script_spec("analysis.R", script, Platform::Linux).unwrap();
    assert_eq!(fields(&spec), (vec![], None, true, None));
    assert!(!spec.quarto_reticulate);

    let spec = render_source_spec("notes.txt", "ir: [", Platform::Linux).unwrap();
    assert!(is_empty_spec(&spec));
    let spec = render_source_spec("analysis.r", script, Platform::Linux).unwrap();
    assert!(spec.isolated);
    assert_eq!(
        err(render_source_spec("report.Rmd", "ir: 1\n", Platform::Linux)),
        "frontmatter `ir` must be a YAML mapping"
    );
}

#[test]
fn r_script_hashpipe_frontmatter() {
    assert_eq!(
        read_r_script_frontmatter_to_string("#!/usr/bin/env Rscript\n#| packages: [cli]\n#| isolated: true\nx <- 1\n#| r-version: '4'\n"),
        "packages: [cli]\nisolated: true\n"
    );
    assert_eq!(read_r_script_frontmatter_to_string("x <- 1\n"), "");
    assert_eq!(read_r_script_frontmatter_to_string("#|no-space\n"), "");
    assert_eq!(read_r_script_frontmatter_to_string("#| last"), "last");
    let spec = read_r_script_spec("#| packages:\n#|   - cli\n#| exclude-newer: 2024-02-03\n").unwrap();
    assert_eq!(
        fields(&spec),
        (vec!["cli".to_string()], Some("2024-02-03".to_string()), false, None)
    );
    assert!(is_empty_spec(&parse_r_script_frontmatter("").unwrap()));
    assert!(is_empty_spec(&read_r_script_spec("print(1)\n").unwrap()));
}

#[test]
fn run_sources_read_frontmatter_only_for_scripts() {
    let script = RunSource::Script("a.R".to_string());
    let spec = script.script_spec("#| isolated: true\n").unwrap();
    assert!(spec.isolated);
    let stdin = RunSource::Stdin;
    assert!(is_empty_spec(&stdin.script_spec("#| isolated: true\n").unwrap()));
    let exprs = RunSource::Expressions(vec!["1".to_string()]);
    assert!(is_empty_spec(&exprs.script_spec("#| isolated: true\n").unwrap()));
}

#[test]
fn quarto_r_pinning_and_launch_errors() {
    assert!(r_value("/opt/R/bin/Rscript", false));
    assert!(r_value("C:\\R\\Rscript.exe", false));
    assert!(!r_value("Rscript", false));
    assert!(r_value("Rscript", true));
    assert_eq!(
        spawn_error(true, "ignored"),
        "could not find `quarto`. Install Quarto (https://quarto.org/docs/get-started/) or set IR_QUARTO to a quarto executable."
    );
    assert_eq!(spawn_error(false, "permission denied"), "failed to launch `quarto`: permission denied");
}

#[test]
fn quarto_frontmatter_from_loaded_documents() {
    use_doc_checks();
}

fn use_doc_checks() {
    let doc = |t: &str| load_first_yaml_document(t, "script frontmatter").unwrap();
    let spec = |d| ir::spec::runtime_spec_from_quarto_document(d);
    let none = spec(None).unwrap();
    assert!(none.dependencies.is_empty() && none.r_requirement.is_none() && !none.isolated);
    assert!(spec(doc("~\n")).unwrap().dependencies.is_empty());
    assert!(spec(doc("title: x\n")).unwrap().dependencies.is_empty());
    assert!(spec(doc("ir: ~\n")).unwrap().dependencies.is_empty());
    assert_eq!(spec(doc("- a\n")).err(), Some("script frontmatter must be a YAML mapping".to_string()));
    assert_eq!(spec(doc("ir: 1\n")).err(), Some("frontmatter `ir` must be a YAML mapping".to_string()));
    let s = spec(doc("ir:\n  packages: [cli]\n  isolated: true\n")).unwrap();
    assert_eq!(s.dependencies, vec!["cli".to_string()]);
    assert!(s.isolated);
}
