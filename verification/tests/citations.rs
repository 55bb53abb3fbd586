//! Citations and the addresses of papers.

use papr::actions::citation_metadata;
use papr::arxiv::arxiv_page_url;
use papr::citation::{
    arxiv_record_answered, best_effort_key, doi_answered, extract_arxiv, extract_doi,
    fetch_and_copy_citation, fetch_bibtex, generate_bibtex, key_of_record, CitationMetadata,
    CitationStep,
};
use papr::model::RemotePaper;

fn metadata(title: &str, authors: &str, year: Option<&str>) -> CitationMetadata {
    CitationMetadata {
        title: title.into(),
        authors: authors.into(),
        doi: None,
        arxiv_id: None,
        year: year.map(str::to_owned),
        journal_ref: None,
    }
}

#[test]
fn pages_of_articles_are_found() {
    for (reference, page) in [
        ("2401.01234", "https://arxiv.org/abs/2401.01234"),
        (" arXiv:2401.0123v12.pdf ", "https://arxiv.org/abs/2401.0123v12"),
        ("hep-th/9901001v2", "https://arxiv.org/abs/hep-th/9901001v2"),
        ("https://example.org/x", "https://example.org/x"),
        ("http://arxiv.org/abs/1", "http://arxiv.org/abs/1"),
    ] {
        assert_eq!(arxiv_page_url(reference).as_deref(), Some(page));
    }
    for reference in ["", "240.01234", "2401.012345", "2401.01234v", "/9901001", "hep_th/9901001"] {
        assert_eq!(arxiv_page_url(reference), None);
    }
}

#[test]
fn identifiers_are_extracted() {
    assert_eq!(extract_arxiv(" https://arxiv.org/abs/2401.01234v2 ").as_deref(), Some("2401.01234"));
    assert_eq!(extract_arxiv("arxiv:2401.01234").as_deref(), Some("2401.01234"));
    assert_eq!(extract_arxiv("hep-th/9901001"), None);
    assert_eq!(extract_arxiv("").as_deref(), Some(""));
    assert_eq!(extract_doi("https://doi.org/10.1000/x y ").as_deref(), Some("10.1000/x y"));
    assert_eq!(extract_doi("doi:10.1000/x").as_deref(), Some("10.1000/x"));
    assert_eq!(extract_doi("11.1000/x"), None);
}

#[test]
fn keys_name_the_author_the_year_and_the_title() {
    let einstein = metadata("Zur Elektrodynamik", "Albert Einstein and M. Besso", Some("1905"));
    assert_eq!(best_effort_key(&einstein), "einstein1905zur");
    assert_eq!(best_effort_key(&metadata("  ", "", None)), "citation");
    assert_eq!(best_effort_key(&metadata("«Été» 2", "O'Néil", None)), "onéilété");
}

#[test]
fn records_are_written_without_the_network() {
    let mut paper = metadata("On Light", "A. One", Some("1905"));
    paper.arxiv_id = Some("2401.01234v1".into());
    paper.doi = Some("doi:10.1/2".into());
    let (key, text) = generate_bibtex(&paper);
    assert_eq!(key, "one1905on");
    assert_eq!(
        text,
        "@article{one1905on,\n  title={On Light},\n  author={A. One},\n  year={1905},\n  \
         journal={arXiv preprint arXiv:2401.01234},\n  doi={10.1/2},\n}\n"
    );
    paper.journal_ref = Some("Annalen".into());
    paper.authors = String::new();
    paper.year = Some(String::new());
    paper.doi = None;
    let (_, text) = generate_bibtex(&paper);
    assert_eq!(text, "@article{on,\n  title={On Light},\n  journal={Annalen},\n}\n");
}

#[test]
fn the_publisher_is_asked_before_arxiv() {
    let mut paper = metadata("T", "A", None);
    paper.doi = Some("10.1/2".into());
    paper.arxiv_id = Some("2401.01234".into());
    assert!(matches!(fetch_bibtex(&paper), CitationStep::Doi { url } if url == "https://doi.org/10.1/2"));
    let answered = doi_answered(&paper, Some(" @article{ key , x}".into()));
    assert!(matches!(answered, CitationStep::Done { key, bibtex }
        if key == "key" && bibtex == " @article{ key , x}"));
    let empty = doi_answered(&paper, Some(" \n".into()));
    assert!(matches!(empty, CitationStep::Arxiv { url } if url == "https://arxiv.org/bibtex/2401.01234"));
    let none = arxiv_record_answered(&paper, None);
    assert!(matches!(none, CitationStep::Done { key, .. } if key == "at"));
    assert!(matches!(fetch_bibtex(&metadata("T", "A", None)), CitationStep::Done { .. }));
    assert_eq!(key_of_record("no record", &metadata("T", "A", None)), "at");
}

#[test]
fn where_a_citation_comes_from_is_told() {
    assert_eq!(fetch_and_copy_citation("  doi = {1}", true), "Citation copied to clipboard (DOI)");
    assert_eq!(fetch_and_copy_citation("arXiv", true), "Citation copied to clipboard (arXiv)");
    assert_eq!(fetch_and_copy_citation("@book", true), "Citation copied to clipboard (Generated)");
    assert_eq!(fetch_and_copy_citation("@book", false), "Failed to write to clipboard");
}

#[test]
fn the_year_of_a_paper_is_read_off_the_calendar() {
    let paper = RemotePaper {
        id: "2401.01234".into(),
        title: "T".into(),
        authors: vec!["A".into(), "B".into()],
        abstract_text: String::new(),
        published: 1_704_067_199,
        updated: 0,
        categories: vec![],
        pdf_url: None,
        doi: None,
        journal_ref: None,
    };
    let cited = citation_metadata(&paper);
    assert_eq!(cited.year.as_deref(), Some("2023"));
    assert_eq!(cited.authors, "A and B");
}
