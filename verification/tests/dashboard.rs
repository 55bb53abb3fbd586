//! The feed of the day.

use papr::dashboard::{
    keyword_availability, keyword_draw_seed, keyword_priority_weights,
    keyword_representation_targets, select_dashboard_papers, shuffle_daily_bucket, Bucket,
};
use papr::model::RemotePaper;

/// The draws of a day: higher-priority keywords have a slightly better chance.
fn draws(available: &[usize], keywords: &[String], date: &str) -> Vec<u64> {
    let weights = keyword_priority_weights(&available.to_vec());
    keywords
        .iter()
        .zip(weights)
        .map(|(keyword, weight)| {
            let seed = keyword_draw_seed(date, keyword);
            let uniform = (seed as f64 / u64::MAX as f64).max(f64::MIN_POSITIVE);
            if weight == 0 {
                0
            } else {
                uniform.powf(1.0 / weight as f64).to_bits()
            }
        })
        .collect()
}

fn targets(available: &[usize], keywords: &[String], limit: usize, date: &str) -> Vec<usize> {
    let draws = draws(available, keywords, date);
    keyword_representation_targets(&available.to_vec(), &draws, limit)
}

fn select(buckets: Vec<(String, Vec<RemotePaper>)>, limit: usize, date: &str) -> Vec<RemotePaper> {
    let buckets: Vec<Bucket> = buckets
        .into_iter()
        .map(|(keyword, papers)| Bucket { keyword, papers })
        .collect();
    let available = keyword_availability(&buckets, date);
    let keywords: Vec<String> = buckets.iter().map(|bucket| bucket.keyword.clone()).collect();
    let draws = draws(&available, &keywords, date);
    select_dashboard_papers(&buckets, limit, date, &draws)
}

fn copies(papers: &[RemotePaper]) -> Vec<RemotePaper> {
    papers.iter().map(|paper| paper.copy()).collect()
}

fn ids(papers: &[RemotePaper]) -> Vec<String> {
    papers.iter().map(|paper| paper.id.clone()).collect()
}

fn remote_paper(id: &str, title: &str) -> RemotePaper {
    RemotePaper {
        id: id.into(),
        title: title.into(),
        authors: vec!["Researcher".into()],
        abstract_text: String::new(),
        published: 1_767_225_600,
        updated: 1_767_225_600,
        categories: vec!["cs.DL".into()],
        pdf_url: None,
        doi: None,
        journal_ref: None,
    }
}

#[test]
fn dashboard_prioritizes_papers_with_all_keyword_terms_in_the_title() {
    let papers = vec![
        remote_paper("https://arxiv.org/abs/abstract", "A related result"),
        remote_paper("https://arxiv.org/abs/title-one", "Quantum gravity constraints"),
        remote_paper("https://arxiv.org/abs/title-two", "Gravity in quantum systems"),
    ];

    let selected = select(
        vec![("quantum gravity".into(), papers)],
        10,
        "2026-07-19",
    );

    assert!(selected[0].title.to_lowercase().contains("quantum"));
    assert!(selected[0].title.to_lowercase().contains("gravity"));
    assert!(selected[1].title.to_lowercase().contains("quantum"));
    assert!(selected[1].title.to_lowercase().contains("gravity"));
    assert_eq!(selected[2].id, "https://arxiv.org/abs/abstract");
}

#[test]
fn dashboard_represents_keywords_even_when_only_one_has_a_title_match() {
    let selected = select(
        vec![
            (
                "neural networks".into(),
                vec![remote_paper("https://arxiv.org/abs/abstract", "A related result")],
            ),
            (
                "quantum gravity".into(),
                vec![remote_paper(
                    "https://arxiv.org/abs/title",
                    "Quantum gravity constraints",
                )],
            ),
        ],
        10,
        "2026-07-19",
    );

    assert_eq!(selected.len(), 2);
    assert!(selected.iter().any(|paper| paper.id == "https://arxiv.org/abs/title"));
    assert!(selected
            .iter()
            .any(|paper| paper.id == "https://arxiv.org/abs/abstract"));
}

#[test]
fn dashboard_balances_keyword_targets_before_title_quality() {
    let first_keyword: Vec<_> = (0..10)
        .map(|index| remote_paper(&format!("https://arxiv.org/abs/alpha-{index}"), "Alpha"))
        .collect();
    let second_keyword: Vec<_> = (0..10)
        .map(|index| remote_paper(&format!("https://arxiv.org/abs/beta-{index}"), "Related work"))
        .collect();
    let selected = select(
        vec![("alpha".into(), first_keyword), ("beta".into(), second_keyword)],
        10,
        "2026-07-19",
    );

    let first_count = selected
        .iter()
        .filter(|paper| paper.id.contains("alpha-"))
        .count();
    assert_eq!(first_count, 5);
    assert_eq!(selected.len() - first_count, 5);
}

#[test]
fn dashboard_keyword_targets_are_balanced_with_a_gentle_earlier_preference() {
    let keywords = |count| (0..count).map(|index| format!("keyword {index}")).collect::<Vec<_>>();
    assert_eq!(
        targets(&[50, 50], &keywords(2), 10, "2026-07-19"),
        vec![5, 5]
    );
    assert_eq!(
        targets(&[50, 50, 50], &keywords(3), 10, "2026-07-19"),
        vec![4, 3, 3]
    );
    assert_eq!(
        targets(&[50, 50, 50, 50], &keywords(4), 10, "2026-07-19"),
        vec![3, 3, 2, 2]
    );
    assert_eq!(
        targets(&[50, 0, 50], &keywords(3), 10, "2026-07-19"),
        vec![5, 0, 5]
    );
}

#[test]
fn dashboard_many_keywords_uses_a_daily_weighted_window() {
    let keywords = (0..15)
        .map(|index| format!("keyword {index}"))
        .collect::<Vec<_>>();
    let targets = targets(&[50; 15], &keywords, 10, "2026-07-19");

    assert_eq!(targets.iter().sum::<usize>(), 10);
    assert_eq!(targets.iter().filter(|&&target| target == 1).count(), 10);
}

#[test]
fn dashboard_reallocates_when_a_keyword_runs_out_of_candidates() {
    let second_keyword: Vec<_> = (0..20)
        .map(|index| remote_paper(&format!("https://arxiv.org/abs/beta-{index}"), "Beta"))
        .collect();
    let selected = select(
        vec![
            (
                "alpha".into(),
                vec![remote_paper("https://arxiv.org/abs/alpha-only", "Alpha")],
            ),
            ("beta".into(), second_keyword),
        ],
        10,
        "2026-07-19",
    );

    assert_eq!(selected.len(), 10);
    assert_eq!(
        selected
            .iter()
            .filter(|paper| paper.id == "https://arxiv.org/abs/alpha-only")
            .count(),
        1
    );
}

#[test]
fn dashboard_boosts_and_deduplicates_multi_keyword_matches() {
    let shared = remote_paper("https://arxiv.org/abs/shared", "Alpha beta methods");
    let selected = select(
        vec![
            (
                "alpha".into(),
                vec![remote_paper("https://arxiv.org/abs/alpha", "Alpha result"), shared.copy()],
            ),
            (
                "beta".into(),
                vec![remote_paper("https://arxiv.org/abs/beta", "Beta result"), shared],
            ),
        ],
        2,
        "2026-07-19",
    );

    assert_eq!(selected[0].id, "https://arxiv.org/abs/shared");
    assert_eq!(
        selected
            .iter()
            .filter(|paper| paper.id == "https://arxiv.org/abs/shared")
            .count(),
        1
    );
}

#[test]
fn daily_dashboard_permutation_is_input_order_independent_and_changes_by_date() {
    let papers: Vec<_> = (0..30)
        .map(|index| remote_paper(&format!("https://arxiv.org/abs/{index}"), "Paper"))
        .collect();
    let mut reordered = copies(&papers);
    reordered.reverse();

    shuffle_daily_bucket(&mut reordered, "2026-07-19", "quantum gravity");
    let mut same_day = copies(&papers);
    shuffle_daily_bucket(&mut same_day, "2026-07-19", "quantum gravity");
    assert_eq!(ids(&reordered), ids(&same_day));

    let mut next_day = papers;
    shuffle_daily_bucket(&mut next_day, "2026-07-20", "quantum gravity");
    assert_ne!(
        same_day.iter().take(10).map(|paper| &paper.id).collect::<Vec<_>>(),
        next_day.iter().take(10).map(|paper| &paper.id).collect::<Vec<_>>(),
    );
}

#[test]
fn keyword_dashboard_feed_rotates_selected_papers_each_day() {
    let papers = (0..30)
        .map(|index| remote_paper(&format!("https://arxiv.org/abs/{index}"), "Quantum result"))
        .collect::<Vec<_>>();

    let first_day = select(
        vec![("quantum".into(), copies(&papers))],
        10,
        "2026-07-19",
    );
    let next_day = select(
        vec![("quantum".into(), papers)],
        10,
        "2026-07-20",
    );

    assert_ne!(
        first_day.iter().map(|paper| &paper.id).collect::<Vec<_>>(),
        next_day.iter().map(|paper| &paper.id).collect::<Vec<_>>(),
    );
}

#[test]
fn a_multi_keyword_paper_counts_once_toward_each_target() {
    let shared = remote_paper("https://arxiv.org/abs/shared", "Alpha beta gamma");
    let bucket = |keyword: &str, count: usize| {
        (0..count)
            .map(|index| {
                remote_paper(
                    &format!("https://arxiv.org/abs/{keyword}-{index}"),
                    keyword,
                )
            })
            .collect::<Vec<_>>()
    };
    let mut alpha = bucket("alpha", 4);
    let mut beta = bucket("beta", 3);
    let mut gamma = bucket("gamma", 3);
    alpha.push(shared.copy());
    beta.push(shared.copy());
    gamma.push(shared);

    let selected = select(
        vec![
            ("alpha".into(), alpha),
            ("beta".into(), beta),
            ("gamma".into(), gamma),
        ],
        10,
        "2026-07-19",
    );

    assert_eq!(selected[0].id, "https://arxiv.org/abs/shared");
    assert!(selected.iter().filter(|paper| paper.id.contains("beta-")).count() >= 2);
    assert!(selected.iter().filter(|paper| paper.id.contains("gamma-")).count() >= 2);
}

#[test]
fn no_paper_is_in_the_feed_twice() {
    let paper = |n: usize| remote_paper(&format!("https://arxiv.org/abs/{n}"), "Alpha beta");
    let first: Vec<RemotePaper> = (0..6).map(paper).collect();
    let second: Vec<RemotePaper> = (3..9).chain(4..7).map(paper).collect();
    let known: Vec<String> = (0..9).map(|n| paper(n).id).collect();
    for limit in [0, 4, 9, 20] {
        let buckets = vec![
            ("alpha".to_owned(), copies(&first)),
            ("beta".to_owned(), copies(&second)),
        ];
        let feed = ids(&select(buckets, limit, "2026-07-19"));
        assert_eq!(feed.len(), limit.min(9));
        assert!(feed.iter().all(|id| known.contains(id)));
        assert!(feed.iter().enumerate().all(|(i, id)| !feed[..i].contains(id)));
    }
}
