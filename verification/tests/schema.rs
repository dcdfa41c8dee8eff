use dmc_parser::schema::{
    asset_dir, asset_file_name, asset_url, content_hash8, hash8_of_hex, plan_asset, resolve_asset, word_count, Ctx, ExcerptSchema,
    FileSchema, ImageSchema, IsodateSchema, MarkdownSchema, MdxSchema, PathSchema, RawSchema, SlugSchema,
    UniqueCache, UniqueSchema, ValidationError,
};

fn ctx(plain: Option<&str>) -> Ctx {
    Ctx {
        body: "# Title\n\nBody".to_string(),
        html: None,
        mdx_body: Some("compiled".to_string()),
        plain_text: plain.map(|s| s.to_string()),
        file_path: "/site/content/blog/post.md".to_string(),
        root: "/site/content".to_string(),
    }
}

fn message(r: Result<String, ValidationError>) -> String {
    match r {
        Ok(v) => panic!("expected an error, got {v:?}"),
        Err(e) => {
            assert_eq!(e.path, "");
            e.message
        },
    }
}

#[test]
fn body_fields_come_from_the_context() {
    let c = ctx(None);
    assert_eq!(RawSchema.parse(&c).unwrap(), "# Title\n\nBody");
    assert_eq!(message(MarkdownSchema.parse(&c)), "markdown body not yet rendered (engine bug?)");
    assert_eq!(MdxSchema.parse(&c).unwrap(), "compiled");
}

#[test]
fn words_are_counted_between_whitespace() {
    assert_eq!(word_count("  hello   world \n x"), 3);
    assert_eq!(word_count(""), 0);
    assert_eq!(word_count(" \t\n"), 0);
}

#[test]
fn excerpt_collapses_whitespace_and_cuts() {
    assert_eq!(ExcerptSchema::default().length, 260);
    assert_eq!(ExcerptSchema::default().parse(&ctx(Some("a  b\n c"))).unwrap(), "a b c");
    assert_eq!(ExcerptSchema::default().length(3).parse(&ctx(Some("hello world"))).unwrap(), "hel\u{2026}");
    assert_eq!(ExcerptSchema::default().length(6).parse(&ctx(Some("hello world"))).unwrap(), "hello\u{2026}");
    assert_eq!(ExcerptSchema::default().length(11).parse(&ctx(Some("hello world"))).unwrap(), "hello world");
    assert_eq!(ExcerptSchema::default().parse(&ctx(None)).unwrap(), "");
}

#[test]
fn routes_drop_extensions_and_index() {
    let p = PathSchema::default();
    assert_eq!(p.route("blog/post.mdx"), "blog/post");
    assert_eq!(p.route("a/index.md"), "a/index");
    assert_eq!(p.route("a.mdx.mdx"), "a");
    assert_eq!(p.route("x.md.mdx"), "x");
    assert_eq!(PathSchema::default().remove_index().route("a/index.md"), "a");
    assert_eq!(PathSchema::default().parse(&ctx(None)), "blog/post");
}

#[test]
fn slugs_are_validated_and_claimed_once_per_bucket() {
    let mut cache = UniqueCache::new();
    let s = SlugSchema::default();
    assert_eq!(message(s.parse(None, &mut cache)), "slug must be a string");
    assert_eq!(message(s.parse(Some("ab"), &mut cache)), "slug length must be 3..=200 (got 2)");
    let long = "a".repeat(201);
    assert_eq!(message(s.parse(Some(&long), &mut cache)), "slug length must be 3..=200 (got 201)");
    let kebab = "slug must be kebab-case (lowercase letters, digits, single dashes)";
    assert_eq!(message(s.parse(Some("Hello"), &mut cache)), kebab);
    assert_eq!(message(s.parse(Some("-abc"), &mut cache)), kebab);
    assert_eq!(message(s.parse(Some("abc-"), &mut cache)), kebab);
    assert_eq!(message(s.parse(Some("a--b"), &mut cache)), kebab);
    let r = SlugSchema::default().reserved(vec!["admin".to_string()]);
    assert_eq!(message(r.parse(Some("admin"), &mut cache)), "slug 'admin' is reserved");
    assert_eq!(s.parse(Some("my-post-2"), &mut cache).unwrap(), "my-post-2");
    assert_eq!(message(s.parse(Some("my-post-2"), &mut cache)), "slug 'my-post-2' already used in bucket 'global'");
    let docs = SlugSchema::default().in_bucket("docs".to_string());
    assert_eq!(docs.parse(Some("my-post-2"), &mut cache).unwrap(), "my-post-2");
    assert!(cache.contains(&"global::my-post-2".to_string()));
    assert!(cache.contains(&"docs::my-post-2".to_string()));
}

#[test]
fn unique_values_are_claimed_once_per_bucket() {
    let mut cache = UniqueCache::new();
    let u = UniqueSchema::default();
    assert_eq!(message(u.parse(None, &mut cache)), "unique value must be a string");
    assert_eq!(u.parse(Some("x"), &mut cache).unwrap(), "x");
    assert_eq!(message(u.parse(Some("x"), &mut cache)), "'x' already used in unique bucket 'global'");
    assert_eq!(UniqueSchema::default().in_bucket("b".to_string()).parse(Some("x"), &mut cache).unwrap(), "x");
}

#[test]
fn iso_dates_need_a_date_prefix() {
    assert_eq!(IsodateSchema.parse(Some("2024-01-31")).unwrap(), "2024-01-31");
    assert_eq!(IsodateSchema.parse(Some("2024-01-31T10:00:00Z")).unwrap(), "2024-01-31T10:00:00Z");
    assert_eq!(message(IsodateSchema.parse(Some("2024/01/31"))), "'2024/01/31' is not a valid ISO date");
    assert_eq!(message(IsodateSchema.parse(Some("2024-1-31"))), "'2024-1-31' is not a valid ISO date");
    assert_eq!(message(IsodateSchema.parse(None)), "isodate must be a string");
}

#[test]
fn asset_paths_are_resolved_or_refused() {
    let c = ctx(None);
    assert_eq!(message(resolve_asset(&c, "http://x/a.png", true)), "'http://x/a.png' is a URL, not a local file");
    assert_eq!(message(resolve_asset(&c, "//cdn/a.png", true)), "'//cdn/a.png' is a URL, not a local file");
    assert_eq!(
        message(resolve_asset(&c, "/abs.png", false)),
        "'/abs.png' is not relative; pass allowNonRelativePath / absoluteRoot to permit"
    );
    assert_eq!(resolve_asset(&c, "/abs.png", true).unwrap(), "/abs.png");
    assert_eq!(resolve_asset(&c, "img/a.png", false).unwrap(), "/site/content/blog/img/a.png");
    assert_eq!(message(FileSchema::default().locate(None, &c)), "file path must be a string");
    assert_eq!(message(ImageSchema::default().locate(None, &c)), "image path must be a string");
    assert!(FileSchema::default().locate(Some("/a.pdf"), &c).is_err());
    assert_eq!(FileSchema::default().allow_non_relative().locate(Some("/a.pdf"), &c).unwrap(), "/a.pdf");
    assert_eq!(ImageSchema::default().absolute_root("/r".to_string()).locate(Some("/a.png"), &c).unwrap(), "/a.png");
}

#[test]
fn published_names_use_the_content_hash() {
    assert_eq!(content_hash8(b"abc"), "6437b3ac");
    assert_eq!(content_hash8(b""), "af1349b9");
    assert_ne!(content_hash8(b"abc"), content_hash8(b"abd"));
    assert_eq!(hash8_of_hex("0123456789abcdef"), "01234567");
    assert_eq!(asset_file_name("[name]-[hash:8].[ext]", "logo", "6437b3ac", "png"), "logo-6437b3ac.png");
    assert_eq!(asset_file_name("[name][name]", "a", "h", "e"), "aa");
    assert_eq!(asset_url("/assets", "a.png"), "/assets/a.png");
    assert_eq!(asset_url("/assets/", "a.png"), "/assets/a.png");
    let p = plan_asset("/c/img/logo.png", b"abc", "[name].[hash:8].[ext]", "https://x.io/a");
    assert_eq!(p.file_name, "logo.6437b3ac.png");
    assert_eq!(p.url, "https://x.io/a/logo.6437b3ac.png");
    let q = plan_asset("/c/img/README", b"abc", "[name].[ext]", "/");
    assert_eq!(q.file_name, "README.bin");
    assert_eq!(q.url, "/README.bin");
}

#[test]
fn relative_assets_are_read_from_the_entry_directory_or_the_root() {
    let root = "/site/content".to_string();
    assert_eq!(asset_dir(Some("/site/content/blog".to_string()), &root), "/site/content/blog");
    assert_eq!(asset_dir(None, &root), "/site/content");
}

#[test]
fn paths_relative_to_the_root() {
    let mut c = ctx(None);
    assert_eq!(PathSchema::default().parse(&c), "blog/post");
    c.file_path = "/site/contents/x.md".to_string();
    assert_eq!(PathSchema::default().parse(&c), "/site/contents/x");
    c.file_path = "/site/content/a/index.mdx".to_string();
    assert_eq!(PathSchema::default().remove_index().parse(&c), "a");
    c.file_path = "docs/intro.md".to_string();
    c.root = "docs".to_string();
    assert_eq!(PathSchema::default().parse(&c), "intro");
}

#[test]
fn stems_and_extensions_follow_the_last_dot() {
    assert_eq!(plan_asset("a/.env", b"abc", "[name].[ext]", "/").file_name, ".env.bin");
    assert_eq!(plan_asset("a/b.tar.gz", b"abc", "[name].[ext]", "/").file_name, "b.tar.gz");
    assert_eq!(plan_asset("a/b.", b"abc", "[name]|[ext]", "/").file_name, "b|");
    assert_eq!(plan_asset(".x.y", b"abc", "[name]|[ext]", "/").file_name, ".x|y");
}

#[test]
fn relative_assets_end_with_the_written_path() {
    let mut c = ctx(None);
    c.file_path = "post.md".to_string();
    assert_eq!(resolve_asset(&c, "img/a.png", false).unwrap(), "img/a.png");
    c.file_path = "/post.md".to_string();
    assert_eq!(resolve_asset(&c, "a.png", false).unwrap(), "/a.png");
}
