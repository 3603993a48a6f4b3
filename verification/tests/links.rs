use siku::git_host::{
    create_pull_request, parse_remote_url, pull_request, usable_token, GitPlatform,
};
use siku::json::{Json, Member};
use siku::link_import::{
    abstract_in_events, after_crossref, after_openalex, arxiv_reply, complete_metadata,
    crossref_reply, extract_isbn, get_proxy, isbn_reply, metadata_from_answer,
    looks_like_doi, not_found_error, openalex_reply, parse_link, parse_pubmed_abstract, parse_year,
    prepare_import,
    pubmed_reply, reconstruct_openalex_abstract, resolve_pdf_url, semantic_scholar_reply,
    service_url, strip_xml_tags, title_from_url, unpaywall_reply, Body, ChunkVerdict, DoiStep, Download,
    DownloadStep, LinkImportError, PaperMetadata, ParsedLink, PdfSource, Service,
};
use siku::xml::XmlEvent;

fn metadata(title: &str) -> PaperMetadata {
    PaperMetadata {
        title: title.to_string(),
        authors: vec!["Ada Lovelace".to_string()],
        year: Some(1843),
        journal: None,
        doi: None,
        url: None,
        abstract_text: None,
        keywords: vec![],
        pdf_url: None,
        page_count: None,
        isbn: None,
    }
}

fn fail(code: &str) -> LinkImportError {
    LinkImportError::new(code, "x".to_string())
}

#[test]
fn test_parse_link_doi_url() {
    assert!(matches!(
        parse_link("https://doi.org/10.1145/276675.276685"),
        ParsedLink::Doi(d) if d == "10.1145/276675.276685"
    ));
}

#[test]
fn test_parse_link_bare_doi() {
    assert!(matches!(
        parse_link("10.1145/276675.276685"),
        ParsedLink::Doi(d) if d == "10.1145/276675.276685"
    ));
}

#[test]
fn test_parse_link_arxiv_abs() {
    assert!(matches!(
        parse_link("https://arxiv.org/abs/2401.12345"),
        ParsedLink::Arxiv(id) if id == "2401.12345"
    ));
}

#[test]
fn test_parse_link_arxiv_pdf() {
    assert!(matches!(
        parse_link("https://arxiv.org/pdf/2401.12345.pdf"),
        ParsedLink::Arxiv(id) if id == "2401.12345"
    ));
}

#[test]
fn test_parse_link_pubmed() {
    assert!(matches!(
        parse_link("https://pubmed.ncbi.nlm.nih.gov/12345678/"),
        ParsedLink::PubMed(id) if id == "12345678"
    ));
}

#[test]
fn test_parse_link_direct_pdf() {
    assert!(matches!(
        parse_link("https://example.com/paper.pdf?download=1"),
        ParsedLink::DirectPdf(url) if url == "https://example.com/paper.pdf?download=1"
    ));
    assert!(matches!(
        parse_link("https://example.com/paper.pdf#page=1"),
        ParsedLink::DirectPdf(url) if url == "https://example.com/paper.pdf#page=1"
    ));
}

#[test]
fn test_parse_link_arxiv_pdf_treated_as_arxiv() {
    assert!(matches!(
        parse_link("https://arxiv.org/pdf/2401.12345.pdf"),
        ParsedLink::Arxiv(id) if id == "2401.12345"
    ));
}

#[test]
fn test_parse_link_unsupported() {
    assert!(matches!(parse_link("https://example.com"), ParsedLink::Unsupported));
}

#[test]
fn test_invalid_bare_doi_rejected() {
    // Looks like an IP address, not a DOI.
    assert!(matches!(parse_link("10.0.0.1/path"), ParsedLink::Unsupported));
    assert!(matches!(parse_link("978-3-16-148410-0"), ParsedLink::Isbn(_)));
    assert!(matches!(parse_link("0306406152"), ParsedLink::Isbn(_)));
    assert!(matches!(
        parse_link("openlibrary.org/isbn/9783161484100"),
        ParsedLink::Isbn(_)
    ));
}

#[test]
fn test_reconstruct_openalex_abstract() {
    let json = Json::Object(vec![
        Member {
            key: "Hello".to_string(),
            value: Json::Array(vec![Json::Int(0), Json::Int(2)]),
        },
        Member {
            key: "world".to_string(),
            value: Json::Array(vec![Json::Int(1)]),
        },
    ]);
    let abs = reconstruct_openalex_abstract(&json).unwrap();
    assert_eq!(abs, "Hello world Hello");
}

#[test]
fn test_parse_pubmed_abstract_simple() {
    let xml = r#"<?xml version="1.0"?>
        <PubmedArticleSet>
            <PubmedArticle>
                <MedlineCitation>
                    <Article>
                        <Abstract>
                            <AbstractText>First part.</AbstractText>
                            <AbstractText>Second part.</AbstractText>
                        </Abstract>
                    </Article>
                </MedlineCitation>
            </PubmedArticle>
        </PubmedArticleSet>"#;
    let abs = parse_pubmed_abstract(xml).ok().unwrap();
    assert_eq!(abs, "First part. Second part.");
}

#[test]
fn test_parse_pubmed_abstract_with_attributes() {
    let xml = r#"<?xml version="1.0"?>
        <PubmedArticleSet>
            <PubmedArticle>
                <MedlineCitation>
                    <Article>
                        <Abstract>
                            <AbstractText Label="BACKGROUND" NlmCategory="BACKGROUND">Some background.</AbstractText>
                            <AbstractText Label="CONCLUSIONS" NlmCategory="CONCLUSIONS">A conclusion.</AbstractText>
                        </Abstract>
                    </Article>
                </MedlineCitation>
            </PubmedArticle>
        </PubmedArticleSet>"#;
    let abs = parse_pubmed_abstract(xml).ok().unwrap();
    assert_eq!(abs, "Some background. A conclusion.");
}

#[test]
fn abstract_is_read_from_events() {
    let events = vec![
        XmlEvent::Start(b"AbstractText".to_vec(), vec![]),
        XmlEvent::Text(Some(" One. ".to_string())),
        XmlEvent::End(b"AbstractText".to_vec()),
    ];
    assert_eq!(abstract_in_events(&events).ok().unwrap(), "One.");
    let e = abstract_in_events(&vec![]).err().unwrap();
    assert_eq!(e.code, "metadata_not_found");
    let broken = vec![XmlEvent::Bad("oops".to_string())];
    assert_eq!(
        abstract_in_events(&broken).err().unwrap().message,
        "PubMed XML parse error: oops"
    );
}

#[test]
fn test_strip_xml_tags() {
    assert_eq!(
        strip_xml_tags("<jats:p>Hello <i>world</i>.</jats:p>"),
        "Hello world."
    );
}

#[test]
fn isbn_shapes() {
    assert_eq!(extract_isbn("978-3-16-148410-0").as_deref(), Some("9783161484100"));
    assert_eq!(extract_isbn("080442957X").as_deref(), Some("080442957X"));
    assert!(extract_isbn("hello").is_none());
}

#[test]
fn years_are_read() {
    assert_eq!(parse_year("2021"), Some(2021));
    assert_eq!(parse_year("x"), None);
}

#[test]
fn crossref_reply_is_read() {
    let body = r#"{"message": {"title": ["A Title"], "author": [{"given": "Ada", "family": "Lovelace"}], "container-title": ["Journal"], "published-print": {"date-parts": [[2020, 1]]}}}"#;
    let m = crossref_reply("10.1/x", body).ok().unwrap().unwrap();
    assert_eq!(m.title, "A Title");
    assert_eq!(m.authors, vec!["Ada Lovelace"]);
    assert_eq!(m.year, Some(2020));
    assert_eq!(m.journal.as_deref(), Some("Journal"));
    assert!(crossref_reply("10.1/x", "no json").is_err());
    assert!(crossref_reply("10.1/x", "{}").ok().unwrap().is_none());
}

#[test]
fn other_replies_refuse_broken_json() {
    assert_eq!(openalex_reply("d", "nope").err().unwrap().code, "network_error");
    assert!(semantic_scholar_reply("s", "nope").is_err());
    assert!(isbn_reply("i", "nope").is_err());
    assert!(pubmed_reply("1", None, "nope").is_err());
    assert!(unpaywall_reply("nope").is_err());
    assert_eq!(
        unpaywall_reply(r#"{"best_oa_location": {"url_for_pdf": "https://x/y.pdf"}}"#)
            .ok()
            .unwrap()
            .as_deref(),
        Some("https://x/y.pdf")
    );
    assert!(unpaywall_reply("{}").ok().unwrap().is_none());
}

#[test]
fn openalex_is_asked_when_crossref_knows_nothing() {
    assert!(matches!(after_crossref(Ok(Some(metadata("T")))), DoiStep::Done(Ok(_))));
    assert!(matches!(after_crossref(Ok(None)), DoiStep::AskOpenAlex(None)));
    assert!(matches!(
        after_crossref(Err(fail("network_error"))),
        DoiStep::AskOpenAlex(Some(_))
    ));
    let got = after_openalex("10.1/x", None, Ok(Some(metadata("T"))));
    assert_eq!(got.ok().unwrap().title, "T");
    assert!(after_openalex("10.1/x", None, Ok(None)).is_err());
}

#[test]
fn missing_metadata_is_an_error() {
    let link = ParsedLink::Arxiv("2401.1".to_string());
    assert!(metadata_from_answer(&link, Ok(None)).is_err());
    let e = not_found_error(&link);
    assert!(!e.to_text().is_empty());
    assert!(prepare_import("10.1/abc", None, Err(fail("network_error"))).is_err());
    assert_eq!(
        prepare_import("https://doi.org/10.1145/1", Some(metadata("P")), Ok(None)).ok().unwrap().title,
        "P"
    );
    assert!(prepare_import("https://example.com", Some(metadata("P")), Ok(None)).is_err());
}

#[test]
fn arxiv_failure_still_gives_a_record() {
    let m = arxiv_reply("2401.12345", Err("down".to_string())).unwrap();
    assert_eq!(m.pdf_url.as_deref(), Some("https://arxiv.org/pdf/2401.12345.pdf"));
}

#[test]
fn titles_come_from_addresses() {
    assert_eq!(title_from_url("https://example.com/a/my-paper.pdf"), "my-paper");
    let m = complete_metadata(metadata("T"), "https://example.com/x.pdf");
    assert_eq!(m.url.as_deref(), Some("https://example.com/x.pdf"));
}

#[test]
fn pdf_sources() {
    let mut m = metadata("T");
    assert!(matches!(resolve_pdf_url(&m), PdfSource::Nowhere));
    m.doi = Some("10.1/x".to_string());
    assert!(matches!(resolve_pdf_url(&m), PdfSource::AskUnpaywall(d) if d == "10.1/x"));
    m.pdf_url = Some("https://x/y.pdf".to_string());
    assert!(matches!(resolve_pdf_url(&m), PdfSource::Known(u) if u == "https://x/y.pdf"));
}

#[test]
fn downloads_end() {
    let mut d = Download::new();
    assert!(matches!(d.failed(&fail("x")), DownloadStep::Try(2, false)));
    assert!(matches!(d.failed(&fail("x")), DownloadStep::Try(4, false)));
    match d.failed(&fail("x")) {
        DownloadStep::GiveUp(e) => {
            assert_eq!(e.code, "download_failed");
            assert_eq!(e.message, "PDF 下载失败（已重试）: x");
        }
        DownloadStep::Try(_, _) => panic!("three attempts are enough"),
    }
    // A body that cannot be decoded is asked for without compression.
    let broken = LinkImportError::new("x", "error decoding body".to_string());
    let mut d = Download::new();
    d.failed(&broken);
    d.failed(&broken);
    assert!(matches!(d.failed(&broken), DownloadStep::Try(0, true)));
    assert!(matches!(d.failed(&broken), DownloadStep::Try(4, true)));
    assert!(matches!(d.failed(&broken), DownloadStep::GiveUp(_)));
}

#[test]
fn bodies_must_be_pdfs() {
    let mut b = Body::new();
    assert!(matches!(b.take(b"%PDF-1.4 rest"), ChunkVerdict::Write));
    assert!(matches!(b.take(b"more"), ChunkVerdict::Write));
    assert!(b.finish().is_ok());
    let mut html = Body::new();
    assert!(matches!(html.take(b"<html>"), ChunkVerdict::NotPdf));
    assert!(Body::new().finish().is_err());
}

#[test]
fn parses_github_and_gitee_urls() {
    let gh = parse_remote_url("https://github.com/owner/repo.git").unwrap();
    assert!(gh.platform == GitPlatform::GitHub);
    assert_eq!((gh.owner.as_str(), gh.repo.as_str()), ("owner", "repo"));

    let gh2 = parse_remote_url("git@github.com:owner/repo.git").unwrap();
    assert!(gh2.platform == GitPlatform::GitHub);

    let ge = parse_remote_url("https://gitee.com/someone/my-repo").unwrap();
    assert!(ge.platform == GitPlatform::Gitee);
    assert_eq!(ge.repo, "my-repo");

    assert!(parse_remote_url("https://gitlab.com/a/b").is_none());
    assert!(parse_remote_url("not-a-url").is_none());
    assert!(parse_remote_url("https://github.com/onlyowner").is_none());
}

#[test]
fn pull_requests_are_asked_for_and_read() {
    let remote = parse_remote_url("https://github.com/owner/repo.git").unwrap();
    let pr = pull_request(&remote, "tok", "T", "B", "feature", "main");
    assert_eq!(pr.url, "https://api.github.com/repos/owner/repo/pulls");
    let ok = create_pull_request(
        GitPlatform::GitHub,
        true,
        "201 Created",
        r#"{"html_url": "https://github.com/owner/repo/pull/7", "number": 7}"#,
    );
    assert_eq!(ok.ok().unwrap().number, 7);
    let bad = create_pull_request(
        GitPlatform::GitHub,
        false,
        "422 Unprocessable Entity",
        r#"{"message": "Validation Failed"}"#,
    );
    assert!(bad.err().unwrap().contains("Validation Failed"));
    assert!(usable_token(GitPlatform::Gitee, None).is_err());
    assert_eq!(
        usable_token(GitPlatform::Gitee, Some("abc".to_string())).ok().as_deref(),
        Some("abc")
    );
}

#[test]
fn each_service_has_its_address() {
    assert_eq!(
        service_url(Service::CrossRef, "10.1/x"),
        "https://api.crossref.org/works/10.1/x"
    );
    assert_eq!(
        service_url(Service::OpenAlex, "10.1/x"),
        "https://api.openalex.org/works/doi:10.1/x"
    );
    assert_eq!(
        service_url(Service::Unpaywall, "10.1/x"),
        "https://api.unpaywall.org/v2/10.1/x?email=siku@example.com"
    );
    assert_eq!(
        service_url(Service::PubMedAbstract, "7"),
        "https://eutils.ncbi.nlm.nih.gov/entrez/eutils/efetch.fcgi?db=pubmed&id=7&rettype=abstract"
    );
}

#[test]
fn the_network_proxy_comes_first() {
    let net = Some("http://a".to_string());
    let llm = Some("http://b".to_string());
    assert_eq!(get_proxy(&net, &llm), Some("http://a".to_string()));
    assert_eq!(get_proxy(&None, &llm), Some("http://b".to_string()));
    assert_eq!(get_proxy(&Some(" ".to_string()), &llm), Some("http://b".to_string()));
    assert_eq!(get_proxy(&None, &None), None);
}

#[test]
fn forms_of_one_doi_agree() {
    for link in [
        "10.1145/276675.276685",
        "  10.1145/276675.276685\n",
        "https://doi.org/10.1145/276675.276685",
        "https://doi.org/10.1145/276675.276685/",
        "https://dx.doi.org/10.1145/276675.276685",
        "https://dx.doi.org/10.1145/276675.276685?a=b#c",
    ] {
        assert!(matches!(parse_link(link), ParsedLink::Doi(d) if d == "10.1145/276675.276685"));
    }
}

#[test]
fn addresses_of_one_repository_agree() {
    for url in [
        "git@GitHub.com:owner/my-repo",
        "git@github.com:owner/my-repo.git",
        "https://github.com/owner/my-repo",
        "https://github.com/owner/my-repo.git",
        "http://github.com/owner/my-repo",
        " http://github.com/owner/my-repo.git\n",
    ] {
        let r = parse_remote_url(url).unwrap();
        assert!(r.platform == GitPlatform::GitHub);
        assert_eq!((r.owner.as_str(), r.repo.as_str()), ("owner", "my-repo"));
    }
}

#[test]
fn the_code_of_a_doi_ends_at_its_slash() {
    assert!(looks_like_doi("10.1145/276675.276685"));
    assert!(looks_like_doi("10.1000.10/x"));
    assert!(!looks_like_doi("10.0.0.1/path"));
    assert!(!looks_like_doi("10.123/x"));
    assert!(!looks_like_doi("10.1234abc/x"));
    assert!(!looks_like_doi("10.1234") && !looks_like_doi("10.") && !looks_like_doi("11.1234/x"));
    // The name of the resolver in a DOI does no harm unless another DOI stands behind it.
    let d = "10.1234/see.DOI.ORG/x";
    for link in [d.to_string(), format!("https://doi.org/{d}/"), format!("https://dx.doi.org/{d}?a")] {
        assert!(matches!(parse_link(&link), ParsedLink::Doi(x) if x == d));
    }
}
