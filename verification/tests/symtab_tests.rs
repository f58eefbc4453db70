use asm16::diag::Span;
use asm16::symtab::{ColType, SymbolTable};

#[test]
fn declare_inserts_only_if_absent() {
    let mut st = SymbolTable::new();
    assert_eq!(st.declare(&String::from("x"), 7, Span::new(0, 1)), Ok(()));
    assert_eq!(st.len(), 1);
    // a duplicate is refused and the original span comes back
    assert_eq!(st.declare(&String::from("x"), 9, Span::new(5, 6)), Err(Span::new(0, 1)));
    assert_eq!(st.len(), 1);
    assert_eq!(
        st.get(&String::from("x")),
        Some(ColType { val: 7, span: Span::new(0, 1), visited: false })
    );
}

#[test]
fn resolve_marks_used() {
    let mut st = SymbolTable::new();
    st.declare(&String::from("x"), 7, Span::new(0, 1)).unwrap();
    assert_eq!(st.resolve(&String::from("y")), None);
    assert_eq!(st.resolve(&String::from("x")), Some(7));
    assert_eq!(
        st.get(&String::from("x")),
        Some(ColType { val: 7, span: Span::new(0, 1), visited: true })
    );
}

#[test]
fn unused_symbols_come_in_declaration_order() {
    let mut st = SymbolTable::new();
    st.declare(&String::from("a"), 1, Span::new(0, 1)).unwrap();
    st.declare(&String::from("b"), 2, Span::new(2, 3)).unwrap();
    st.declare(&String::from("c"), 3, Span::new(4, 5)).unwrap();
    st.resolve(&String::from("b"));
    let unused = st.unused_symbols();
    assert_eq!(unused.len(), 2);
    assert_eq!(unused[0], (String::from("a"), Span::new(0, 1)));
    assert_eq!(unused[1], (String::from("c"), Span::new(4, 5)));
}
