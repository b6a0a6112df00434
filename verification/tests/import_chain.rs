use masonry::import::{ImportChain, ImportCycle};

#[test]
fn a_new_chain_is_empty() {
    let chain = ImportChain::new();
    assert_eq!(chain.depth(), 0);
    assert!(!chain.is_open("a.stn"));
}

#[test]
fn entering_lengthens_the_chain() {
    let mut chain = ImportChain::new();
    assert_eq!(chain.enter("a.stn"), Ok(()));
    assert_eq!(chain.enter("b.stn"), Ok(()));
    assert_eq!(chain.depth(), 2);
    assert!(chain.is_open("a.stn"));
    assert!(chain.is_open("b.stn"));
    assert!(!chain.is_open("c.stn"));
}

#[test]
fn a_file_that_draws_itself_in_over_another_is_refused() {
    let mut chain = ImportChain::new();
    assert_eq!(chain.enter("a.stn"), Ok(()));
    assert_eq!(chain.enter("b.stn"), Ok(()));
    assert_eq!(chain.enter("a.stn"), Err(ImportCycle { path: "a.stn".to_string() }));
    assert_eq!(chain.depth(), 2);
    assert!(chain.is_open("a.stn"));
    assert!(chain.is_open("b.stn"));
}

#[test]
fn a_file_that_draws_itself_in_is_refused() {
    let mut chain = ImportChain::new();
    assert_eq!(chain.enter("a.stn"), Ok(()));
    assert_eq!(chain.enter("a.stn"), Err(ImportCycle { path: "a.stn".to_string() }));
    assert_eq!(chain.depth(), 1);
}

#[test]
fn a_file_may_be_drawn_in_twice_one_after_the_other() {
    let mut chain = ImportChain::new();
    assert_eq!(chain.enter("a.stn"), Ok(()));
    assert_eq!(chain.enter("shared.stn"), Ok(()));
    chain.leave();
    assert!(!chain.is_open("shared.stn"));
    assert_eq!(chain.enter("b.stn"), Ok(()));
    assert_eq!(chain.enter("shared.stn"), Ok(()));
    assert_eq!(chain.depth(), 3);
}

#[test]
fn leave_ends_the_file_entered_last() {
    let mut chain = ImportChain::new();
    chain.enter("a.stn").unwrap();
    chain.enter("b.stn").unwrap();
    chain.leave();
    assert_eq!(chain.depth(), 1);
    assert!(chain.is_open("a.stn"));
    assert!(!chain.is_open("b.stn"));
}

#[test]
fn leaving_an_empty_chain_changes_nothing() {
    let mut chain = ImportChain::new();
    chain.leave();
    assert_eq!(chain.depth(), 0);
    assert_eq!(chain.enter("a.stn"), Ok(()));
}
