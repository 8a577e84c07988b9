use mdbook_wavedrom::add_wavedrom;

#[test]
fn adds_wavedrom() {
    let content = r#"# Chapter

```wavedrom
{signal: [
  {name: 'clk', wave: 'p.....|...'}
]}
```

Text
"#;

    let expected = r#"# Chapter

<body onload="WaveDrom.ProcessAll()">

<script type="WaveDrom">{signal: [
  {name: 'clk', wave: 'p.....|...'}
]}
</script>



Text
"#;

    assert_eq!(expected, add_wavedrom(content));
}

#[test]
fn leaves_tables_untouched() {
    let content = r#"# Heading

| Head 1 | Head 2 |
|--------|--------|
| Row 1  | Row 2  |
"#;

    let expected = r#"# Heading

| Head 1 | Head 2 |
|--------|--------|
| Row 1  | Row 2  |
"#;

    assert_eq!(expected, add_wavedrom(content));
}

#[test]
fn leaves_html_untouched() {
    let content = r#"# Heading

<del>

*foo*

</del>
"#;

    let expected = r#"# Heading

<del>

*foo*

</del>
"#;

    assert_eq!(expected, add_wavedrom(content));
}

#[test]
fn html_in_list() {
    let content = r#"# Heading

1. paragraph 1
   ```
   code 1
   ```
2. paragraph 2
"#;

    let expected = r#"# Heading

1. paragraph 1
   ```
   code 1
   ```
2. paragraph 2
"#;

    assert_eq!(expected, add_wavedrom(content));
}

#[test]
fn escape_in_wavedrom_block() {
    let content = r#"
```wavedrom
classDiagram
    class PingUploader {
        <<interface>>
        +Upload() UploadResult
    }
```

hello
"#;

    let expected = r#"
<body onload="WaveDrom.ProcessAll()">

<script type="WaveDrom">classDiagram
    class PingUploader {
        &lt;&lt;interface&gt;&gt;
        +Upload() UploadResult
    }
</script>



hello
"#;

    assert_eq!(expected, add_wavedrom(content));
}

fn template(payload: &str) -> String {
    format!(
        "<body onload=\"WaveDrom.ProcessAll()\">\n\n<script type=\"WaveDrom\">{}</script>\n\n",
        payload
    )
}

#[test]
fn two_blocks_in_sequence() {
    let content = "# T\n\n```wavedrom\na\n```\n\nmid\n\n```wavedrom\nb\n```\n\nend\n";
    let expected = format!(
        "# T\n\n{}\n\nmid\n\n{}\n\nend\n",
        template("a\n"),
        template("b\n")
    );
    assert_eq!(expected, add_wavedrom(content));
}

#[test]
fn empty_payload_block() {
    let content = "```wavedrom\n```\n\nafter\n";
    let expected = format!("{}\n\nafter\n", template(""));
    assert_eq!(expected, add_wavedrom(content));
}

#[test]
fn idempotent_without_match() {
    let content = "# Heading\n\nplain prose, a `span`, and a list:\n\n- one\n- two\n";
    let once = add_wavedrom(content);
    let twice = add_wavedrom(&once);
    assert_eq!(content, once);
    assert_eq!(once, twice);
}

#[test]
fn escaped_region_has_no_raw_markup() {
    let content = "```wavedrom\na < b > c & d \"e\" &lt;\n```\n";
    let output = add_wavedrom(content);
    let open = "<script type=\"WaveDrom\">";
    let start = output.find(open).unwrap() + open.len();
    let end = output.find("</script>").unwrap();
    let region = &output[start..end];
    assert!(!region.contains('<'));
    assert!(!region.contains('>'));
    let unescaped = region
        .replace("&lt;", "<")
        .replace("&gt;", ">")
        .replace("&quot;", "\"")
        .replace("&amp;", "&");
    assert_eq!("a < b > c & d \"e\" &lt;\n", unescaped);
}
