use ice_cream_shop::summary::FullSummary;
use ice_cream_shop::summary::SiteSummary;
use ice_cream_shop::summary::TagSummary;

fn test_site1() -> SiteSummary {
    let tag1 = TagSummary::new("tag1".to_string(), 10, 100);
    let tag2 = TagSummary::new("tag2".to_string(), 20, 150);
    let tags = vec![tag1, tag2];
    SiteSummary::new(&"site1".to_string(), tags)
}

fn test_site2() -> SiteSummary {
    let tag1 = TagSummary::new("tag3".to_string(), 20, 100);
    let tag2 = TagSummary::new("tag4".to_string(), 30, 200);
    let tags = vec![tag1, tag2];
    SiteSummary::new(&"site2".to_string(), tags)
}

fn test_site3() -> SiteSummary {
    let tag1 = TagSummary::new("tag2".to_string(), 10, 150);
    let tag2 = TagSummary::new("tag3".to_string(), 30, 200);
    let tags = vec![tag1, tag2];
    SiteSummary::new(&"site3".to_string(), tags)
}

#[test]
fn stats_initialize_correctly() {
    let site = test_site1();
    assert_eq!(site.questions, 30);
    assert_eq!(site.words, 250);
    assert_eq!(site.tags.len(), 2);
}

#[test]
fn can_combine_sites() {
    let site1 = test_site1();
    let site2 = test_site2();
    let combined = site1.combine(&site2);
    assert_eq!(combined.questions, 80);
    assert_eq!(combined.words, 550);
    assert_eq!(combined.tags.len(), 4);
}

#[test]
fn overlapping_tags_get_combined() {
    let site1 = test_site1();
    let site3 = test_site3();
    let combined = site1.combine(&site3);
    assert_eq!(combined.questions, 70);
    assert_eq!(combined.words, 600);
    assert_eq!(combined.tags.len(), 3);
}

#[test]
fn n_chattiest_works() {
    let site = test_site1().combine(&test_site2());
    let chattiest = site.n_chattiest(2);
    assert_eq!(chattiest.len(), 2);
    assert_eq!(chattiest[0].name, "tag1");
    assert_eq!(chattiest[1].name, "tag2");
}

#[test]
fn chattiness_works() {
    let tag = TagSummary::new("tag1".to_string(), 10, 100);
    assert_eq!(tag.words as f32 / tag.questions as f32, 10.0);
}

#[test]
fn can_combine_similar_tags() {
    let tag1 = TagSummary::new("tag1".to_string(), 10, 100);
    let tag2 = TagSummary::new("tag1".to_string(), 10, 200);
    let combined = tag1.combine(&tag2);
    assert_eq!(combined.questions, 20);
    assert_eq!(combined.words, 300);
    assert_eq!(combined.words as f32 / combined.questions as f32, 15.0);
}

#[test]
fn empty_site_has_nothing() {
    let site = SiteSummary::empty();
    assert_eq!(site.name, "Empty");
    assert_eq!(site.questions, 0);
    assert_eq!(site.words, 0);
    assert_eq!(site.tags.len(), 0);
}

#[test]
fn add_tag_and_question_update_counts() {
    let mut site = SiteSummary::empty();
    site.add_tag(TagSummary::new("tag1".to_string(), 3, 40));
    site.add_tag(TagSummary::new("tag1".to_string(), 2, 10));
    assert_eq!(site.tags.len(), 1);
    assert_eq!(site.tags[0].questions, 5);
    assert_eq!(site.tags[0].words, 50);
    assert_eq!(site.questions, 0);
    site.add_question(25);
    assert_eq!(site.questions, 1);
    assert_eq!(site.words, 25);
}

#[test]
fn full_summary_ranks_sites_and_tags() {
    let site1 = test_site1();
    let site2 = test_site2();
    let total = site1.combine(&site2);
    let full = FullSummary::new(7, vec![test_site1(), test_site2()], &total);
    assert_eq!(full.padron, 7);
    assert_eq!(full.sites.len(), 2);
    assert_eq!(full.tags.len(), 4);
    assert_eq!(full.totals.chatty_tags.len(), 4);
    assert_eq!(full.totals.chatty_tags[0], "tag1");
    assert_eq!(full.totals.chatty_sites.len(), 2);
    // site1 scores 250/30, site2 scores 300/50.
    assert_eq!(full.totals.chatty_sites[0], "site1");
    assert_eq!(full.totals.chatty_sites[1], "site2");
}
