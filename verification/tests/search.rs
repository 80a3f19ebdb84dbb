use dotest::ui::search::match_abbrev;

#[test]
fn test_match_abbrev() {
    let target = "MoveUnfinalizedRowsToNewBatch_MovesAllRowsForPartiallyProcessedRollup";
    assert!(match_abbrev("MoveunfiRollup", target));
    assert!(match_abbrev("MUR", target));
    assert!(match_abbrev("muro", target));
    assert!(!match_abbrev("MoveunfiRollupZ", target));
    
    let target2 = "Namespace.Class.Method";
    assert!(match_abbrev("NCM", target2));
    assert!(match_abbrev("NaClMe", target2));
    assert!(!match_abbrev("NaClMex", target2));
}
