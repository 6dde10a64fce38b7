use revelation_server::songbook::document::SongDocument;
use revelation_server::songbook::listing::{order_by_clause, update_statement, SongSortBy};

#[test]
fn listing_orders_have_their_clauses() {
    assert_eq!(order_by_clause(SongSortBy::Title), "s.title ASC");
    assert_eq!(order_by_clause(SongSortBy::Number), "s.number ASC NULLS LAST, s.title ASC");
    assert_eq!(order_by_clause(SongSortBy::ViewsDesc), "s.views_count DESC, s.title ASC");
    assert_eq!(order_by_clause(SongSortBy::FavoritesDesc), "s.favorites_count DESC, s.title ASC");
    assert_eq!(order_by_clause(SongSortBy::RecentlyAdded), "s.created_at DESC");
    assert_eq!(order_by_clause(SongSortBy::HasChordsFirst), "s.has_chords DESC, s.title ASC");
    assert_eq!(order_by_clause(SongSortBy::NoChordsFirst), "s.has_chords ASC, s.title ASC");
}

#[test]
fn update_statement_numbers_its_parameters() {
    assert_eq!(
        update_statement(false, false),
        "UPDATE songs SET updated_at = NOW() WHERE id = $1"
    );
    assert_eq!(
        update_statement(true, false),
        "UPDATE songs SET updated_at = NOW(), title = $2 WHERE id = $1"
    );
    assert_eq!(
        update_statement(false, true),
        "UPDATE songs SET updated_at = NOW(), content = $2, content_plain = $3, first_line = $4 WHERE id = $1"
    );
    assert_eq!(
        update_statement(true, true),
        "UPDATE songs SET updated_at = NOW(), title = $2, content = $3, content_plain = $4, first_line = $5 WHERE id = $1"
    );
}

#[test]
fn document_is_made_from_its_content() {
    let document = SongDocument::new("{title: Grace}\n[C]Amazing [G]grace\nhow [Am]sweet".to_string());
    assert_eq!(document.content(), "{title: Grace}\n[C]Amazing [G]grace\nhow [Am]sweet");
    assert_eq!(document.content_plain(), "{title: Grace}\nAmazing grace\nhow sweet");
    assert_eq!(document.first_line(), "Amazing grace");
}

#[test]
fn new_content_replaces_every_part_of_the_document() {
    let mut document = SongDocument::new("[C]Old [G]song".to_string());
    document.set_content("  [D]New [A]song  \nline".to_string());
    assert_eq!(document.content(), "  [D]New [A]song  \nline");
    assert_eq!(document.content_plain(), "  New song  \nline");
    assert_eq!(document.first_line(), "New song");
    document.set_content(String::new());
    assert_eq!(document.content(), "");
    assert_eq!(document.content_plain(), "");
    assert_eq!(document.first_line(), "");
}
