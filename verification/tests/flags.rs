//! Kind flags combine without losing any: `with` adds, `has` asks.

use bonsai_lint::language::Flags;

#[test]
fn with_adds_a_flag_and_keeps_the_others() {
    let unit = Flags(1);
    let container = Flags(2);
    let nesting = Flags(4);

    let both = unit.with(container);

    assert!(both.has(unit));
    assert!(both.has(container));
    assert!(!both.has(nesting));
    assert!(!Flags::none().has(unit));
    assert!(Flags::none().with(nesting).has(nesting));
}
