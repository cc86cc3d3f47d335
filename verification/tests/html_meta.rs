//! Extraction of page metadata from real HTML documents.

use genkit::html::parse_html_meta;

#[test]
fn test_parse_html_meta1() {
    let html = r#"
<!DOCTYPE html><html lang="en" class="notranslate" translate="no">
<head>
<meta charset="utf-8">
<meta http-equiv="X-UA-Compatible" content="IE=edge">
<meta name="viewport" content="width=device-width, initial-scale=1">
<title>crates.io: Rust Package Registry</title>
<link rel="shortcut icon" href="/favicon.ico" type="image/x-icon">
<link rel="icon" href="/assets/cargo.png" type="image/png">
<meta name="google" content="notranslate">
<meta property="og:image" content="/assets/og-image.png">
<meta name="twitter:card" content="summary_large_image">
</head>
<body></body></html>
        "#;
    let meta = parse_html_meta(html.as_bytes());
    assert_eq!(meta.title, "crates.io: Rust Package Registry");
    assert_eq!(meta.description, "");
    assert_eq!(meta.url, None);
    assert_eq!(meta.image, Some("/assets/og-image.png".into()));
}

#[test]
fn test_parse_html_meta2() {
    let html = r#"

<!DOCTYPE html><html lang="en" class="notranslate" translate="no"><head>
<meta charset="utf-8">
<meta http-equiv="X-UA-Compatible" content="IE=edge">
<meta name="viewport" content="width=device-width, initial-scale=1">
<title>crates.io: Rust Package Registry</title>
<link rel="shortcut icon" href="/favicon.ico" type="image/x-icon">
<link rel="icon" href="/assets/cargo.png" type="image/png">
<link rel="search" href="/opensearch.xml" type="application/opensearchdescription+xml" title="Cargo">

<meta property="og:image" content="/assets/og-image.png">
<meta name="twitter:card" content="summary_large_image">

<body>
</body></html>
        "#;
    let meta = parse_html_meta(html.as_bytes());
    assert_eq!(meta.title, "crates.io: Rust Package Registry");
    assert_eq!(meta.description, "",);
    assert_eq!(meta.url, None);
    assert_eq!(meta.image, Some("/assets/og-image.png".into()));
}

#[test]
fn test_parse_html_meta3() {
    let html = r#"<!DOCTYPE html><html lang="en" class="notranslate" translate="no">
<head>
<meta charset="utf-8">
<meta http-equiv="X-UA-Compatible" content="IE=edge">
<meta name="viewport" content="width=device-width, initial-scale=1">
<link rel="shortcut icon" href="/favicon.ico" type="image/x-icon">
<link rel="icon" href="/assets/cargo.png" type="image/png">
<meta property="og:image" content="/assets/og-image.png">
<meta name="twitter:card" content="summary_large_image">
<title>crates.io: Rust Package Registry</title>
<meta name="description" content="crates.io is a Rust community effort to create a shared registry of crates.">

<meta property="og:url" content="https://crates.io/">
<meta name="twitter:url" content="https://crates.io/">

</head>

<body></body>
<footer>
<title>fake title</title>
</footer>
</html>
        "#;
    let meta = parse_html_meta(html.as_bytes());
    assert_eq!(meta.title, "crates.io: Rust Package Registry");
    assert_eq!(
        meta.description,
        "crates.io is a Rust community effort to create a shared registry of crates."
    );
    assert_eq!(meta.url, Some("https://crates.io/".into()));
    assert_eq!(meta.image, Some("/assets/og-image.png".into()));
}

#[test]
fn test_parse_html_meta4() {
    let html = r#"<head>
        <meta charset="utf-8">
        <meta http-equiv="X-UA-Compatible" content="IE=edge">
        <meta name="viewport" content="width=device-width, initial-scale=1">
        <link rel="shortcut icon" href="/favicon.ico" type="image/x-icon">
        <link rel="icon" href="/assets/cargo.png" type="image/png">
        <meta property="og:image" content="/assets/og-image.png">
        <meta name="twitter:card" content="summary_large_image">
        <title>crates.io: Rust Package Registry</title>
        <meta name="description" content="crates.io is a Rust community effort to create a shared registry of crates.">

        <meta property="og:url" content="https://crates.io/">
        <meta name="twitter:url" content="https://crates.io/">

        </head>"#;
    let meta = parse_html_meta(html.as_bytes());
    assert_eq!(meta.title, "crates.io: Rust Package Registry");
    assert_eq!(
        meta.description,
        "crates.io is a Rust community effort to create a shared registry of crates."
    );
    assert_eq!(meta.url, Some("https://crates.io/".into()));
    assert_eq!(meta.image, Some("/assets/og-image.png".into()));
}

#[test]
fn meta_truncate_caps_title_and_description() {
    let mut meta = genkit::html::Meta {
        title: "t".repeat(300),
        description: "d".repeat(300),
        url: Some("https://u.example".to_string()),
        image: None,
    };
    meta.truncate();
    assert_eq!(meta.title.chars().count(), 200);
    assert_eq!(meta.description.chars().count(), 200);
    assert_eq!(meta.url.as_deref(), Some("https://u.example"));
}
