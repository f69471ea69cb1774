use guitar::splash::{splash_body, SplashRow, bright_rows, clamp_selection, content_rows, logo_rows, logo_size, top_padding, LogoSize, NARROW_COLUMNS, WIDE_COLUMNS};

#[test]
fn the_drawn_logo_gives_way_to_the_smaller_one_at_the_breakpoint() {
    assert_eq!(logo_size(WIDE_COLUMNS), LogoSize::Wide);
    assert_eq!(logo_size(WIDE_COLUMNS - 1), LogoSize::Narrow);
    assert_eq!(logo_size(NARROW_COLUMNS), LogoSize::Narrow);
    assert_eq!(logo_size(NARROW_COLUMNS - 1), LogoSize::Compact);
    assert_eq!(logo_rows(LogoSize::Wide), 11);
    assert_eq!(logo_rows(LogoSize::Narrow), 9);
    assert_eq!(logo_rows(LogoSize::Compact), 1);
    assert_eq!(bright_rows(LogoSize::Wide), 5);
    assert_eq!(bright_rows(LogoSize::Narrow), 4);
}

#[test]
fn the_splash_body_is_centred() {
    assert_eq!(content_rows(true, 4, true), 1);
    assert_eq!(content_rows(false, 0, false), 5);
    assert_eq!(content_rows(false, 0, true), 3);
    assert_eq!(content_rows(false, 4, true), 9);
    assert_eq!(top_padding(40, 11, 9), 10);
    assert_eq!(top_padding(41, 11, 9), 10);
    assert_eq!(top_padding(10, 11, 9), 0);
    assert_eq!(clamp_selection(7, 3), 2);
    assert_eq!(clamp_selection(1, 3), 1);
    assert_eq!(clamp_selection(5, 0), 0);
}

#[test]
fn the_open_repository_is_marked_and_the_selection_bracketed() {
    let recent = vec!["/a".to_string(), "/b".to_string()];
    let rows = splash_body(false, &recent, true, &Some("/b".to_string()), 0, true);
    assert_eq!(
        rows,
        vec![
            SplashRow::Blank,
            SplashRow::RecentHeading,
            SplashRow::Blank,
            SplashRow::RecentActions,
            SplashRow::Blank,
            SplashRow::Recent { index: 0, current: false, selected: true },
            SplashRow::Recent { index: 1, current: true, selected: false },
        ]
    );
    let unfocused = splash_body(false, &recent, true, &None, 0, false);
    assert_eq!(unfocused[5], SplashRow::Recent { index: 0, current: false, selected: false });
}

#[test]
fn the_splash_body_shows_loading_or_the_credits() {
    assert_eq!(splash_body(true, &vec!["/a".to_string()], true, &None, 0, true), vec![SplashRow::Blank, SplashRow::Loading]);
    assert_eq!(
        splash_body(false, &Vec::new(), false, &None, 0, true),
        vec![SplashRow::Blank, SplashRow::MadeWith, SplashRow::Blank, SplashRow::RepositoryUrl, SplashRow::Blank, SplashRow::NotARepository]
    );
    assert_eq!(splash_body(false, &Vec::new(), true, &None, 0, true).len(), 4);
}
