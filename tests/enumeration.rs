use dropcamp_exporter::csv::{render_row, header_fields};
use dropcamp_exporter::ranking::{ActivitiesGroup, Social};
use dropcamp_exporter::socials::{AddressSocialPatch, Socials};
use dropcamp_exporter::soulbound::{Enumeration, EnumerationError, Extension, TokenInfo, PAGE_LIMIT};

fn page(from: usize, to: usize) -> Vec<String> {
    (from..to).map(|i| format!("token{:04}", i)).collect()
}

fn info(id: &str) -> TokenInfo {
    TokenInfo::from_nft_info(
        id.to_string(),
        "cosmos1x".to_string(),
        Extension { id: "A".to_string(), description: "patch".to_string(), social_score: 42 },
    )
}

fn run(pages: Vec<Vec<String>>) -> Result<Vec<TokenInfo>, EnumerationError> {
    let mut walk = Enumeration::new();
    let mut pages = pages.into_iter();
    while let Some(query) = walk.next_query() {
        assert_eq!(query.limit, PAGE_LIMIT);
        let tokens = pages.next().unwrap_or_default();
        let ids = walk.accept_page(tokens)?;
        // The records come back in any order.
        let infos: Vec<TokenInfo> = ids.iter().rev().map(|id| info(id)).collect();
        walk.accept_infos(infos)?;
    }
    assert!(walk.is_done());
    Ok(walk.into_holders())
}

#[test]
fn two_page_enumeration() {
    let holders = run(vec![page(0, 100), page(100, 103)]).unwrap();
    assert_eq!(holders.len(), 103);
    assert!(holders.iter().all(|h| h.owner == "cosmos1x"));
    let ids: Vec<String> = holders.iter().map(|h| h.id.clone()).collect();
    assert_eq!(ids, page(0, 103));

    let socials = Socials { social: ActivitiesGroup { weight: 100, activities: Some(Social {}) } };
    let mut file = render_row(&header_fields(&AddressSocialPatch::header_row()));
    for h in &holders {
        for row in socials.record(h).to_rows() {
            file.push_str(&render_row(&row));
        }
    }
    assert_eq!(file.lines().count(), 104);
    assert_eq!(file.lines().next(), Some("address;ranking;patch_name;social_score"));
    assert_eq!(file.lines().nth(1), Some("cosmos1x;42.00;A;42"));
}

#[test]
fn cursor_follows_last_id() {
    let mut walk = Enumeration::new();
    assert!(walk.next_query().unwrap().start_after.is_none());
    let ids = walk.accept_page(page(0, 100)).unwrap();
    assert!(walk.next_query().is_none());
    walk.accept_infos(ids.iter().map(|id| info(id)).collect()).unwrap();
    assert_eq!(walk.next_query().unwrap().start_after.as_deref(), Some("token0099"));
}

#[test]
fn full_page_asks_for_one_more_even_if_empty() {
    let holders = run(vec![page(0, 100), Vec::new()]).unwrap();
    assert_eq!(holders.len(), 100);
}

#[test]
fn empty_contract_has_no_holders() {
    let holders = run(vec![Vec::new()]).unwrap();
    assert!(holders.is_empty());
}

#[test]
fn duplicate_across_pages_fails() {
    let mut second = page(100, 102);
    second.push("token0005".to_string());
    match run(vec![page(0, 100), second]) {
        Err(EnumerationError::DuplicateToken(id)) => assert_eq!(id, "token0005"),
        other => panic!("unexpected {:?}", other.map(|h| h.len())),
    }
}

#[test]
fn duplicate_within_page_fails() {
    let mut walk = Enumeration::new();
    let tokens = vec!["a".to_string(), "b".to_string(), "a".to_string()];
    match walk.accept_page(tokens) {
        Err(EnumerationError::DuplicateToken(id)) => assert_eq!(id, "a"),
        other => panic!("unexpected {:?}", other),
    }
}

#[test]
fn missing_record_fails() {
    let mut walk = Enumeration::new();
    let ids = walk.accept_page(vec!["a".to_string(), "b".to_string()]).unwrap();
    assert_eq!(ids.len(), 2);
    match walk.accept_infos(vec![info("a"), info("c")]) {
        Err(EnumerationError::MissingInfo(id)) => assert_eq!(id, "b"),
        other => panic!("unexpected {:?}", other),
    }
}

#[test]
fn wrong_number_of_records_fails() {
    let mut walk = Enumeration::new();
    walk.accept_page(vec!["a".to_string(), "b".to_string()]).unwrap();
    assert!(matches!(walk.accept_infos(vec![info("a")]), Err(EnumerationError::InfoCountMismatch)));
}
