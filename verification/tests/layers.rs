use guitar::layers::LayersContext;

#[test]
fn commits_cover_merges_and_merges_cover_pipes() {
    let mut layers: LayersContext<u8> = LayersContext::new();
    layers.commit(" ", 1);
    layers.commit("●", 2);
    layers.merge("╮", 3);
    layers.merge("─", 4);
    layers.merge("╯", 5);
    layers.pipe("│", 6);
    layers.pipe(" ", 7);
    layers.pipe(" ", 8);
    layers.pipe("   ", 9);
    let mut cells = vec![("x", 0u8)];
    layers.bake(&mut cells, 0);
    assert_eq!(cells, vec![("x", 0), ("╮", 3), ("●", 2), ("╯", 5)]);
}

#[test]
fn trailing_blanks_do_not_widen_the_row() {
    let mut layers: LayersContext<u8> = LayersContext::new();
    layers.pipe("│", 1);
    layers.pipe(" ", 1);
    layers.commit(" ", 2);
    let mut cells = Vec::new();
    layers.bake(&mut cells, 9);
    assert_eq!(cells, vec![("│", 1)]);

    layers.clear();
    let mut empty = Vec::new();
    layers.bake(&mut empty, 9);
    assert!(empty.is_empty());
}
