use deepwell::rules::{SyntaxTree, RULES};

#[test]
fn test_variants() {
    let mut tree = SyntaxTree;

    for rule in &RULES[..] {
        rule.apply(&mut tree);
    }
}
