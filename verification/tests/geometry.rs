use voidtui::geometry::area::Area;
use voidtui::geometry::length::Length;
use voidtui::geometry::spacing::Spacing;

#[test]
fn intersect() {
    let area1 = Area::new(0, 0, 10, 10);
    let area2 = Area::new(5, 5, 10, 10);
    let area3 = Area::new(20, 20, 10, 10);
    assert_eq!(area1.intersect(area2), Area::new(5, 5, 5, 5));
    assert_eq!(area1.intersect(area3), Area::new(0, 0, 0, 0));
}

#[test]
fn intersect_commutes() {
    let cases = [
        (Area::new(0, 0, 10, 10), Area::new(5, 5, 10, 10)),
        (Area::new(2, 3, 4, 5), Area::new(0, 0, 3, 3)),
        (Area::new(0, 0, 1, 1), Area::new(1, 1, 1, 1)),
    ];
    for (a, b) in cases {
        assert_eq!(a.intersect(b), b.intersect(a));
    }
    // the result is empty exactly when the areas do not overlap
    assert!(Area::new(0, 0, 1, 1).intersect(Area::new(1, 0, 1, 1)).is_empty());
    assert!(!Area::new(0, 0, 2, 1).intersect(Area::new(1, 0, 1, 1)).is_empty());
}

#[test]
fn shrink_saturates() {
    let a = Area::new(1, 1, 10, 8);
    let fits = a.shrink(Spacing::new(1, 2, 3, 4));
    assert_eq!(fits, Area::new(5, 2, 4, 4));
    let too_big = a.shrink(Spacing::all(20));
    assert_eq!(too_big.width, 0);
    assert_eq!(too_big.height, 0);
}

#[test]
fn resolve_example() {
    let result = Length::resolve(
        100,
        vec![Length::Preferred, Length::Part(1), Length::Fill, Length::Fill],
        vec![20, 10, 30, 10],
    );
    // Fill exhausts everything left after Preferred, starving Part entirely
    assert_eq!(result, vec![20, 0, 40, 40]);
}

#[test]
fn resolve_conserves_budget() {
    let cases: Vec<(u16, Vec<Length>, Vec<u16>)> = vec![
        (100, vec![Length::Fixed(30), Length::Shrink, Length::Shrink], vec![0, 0, 0]),
        (10, vec![Length::Shrink, Length::Shrink, Length::Shrink], vec![0, 0, 0]),
        (50, vec![Length::Part(1), Length::Part(2)], vec![0, 0]),
        (7, vec![Length::Preferred, Length::Fixed(100)], vec![3, 0]),
    ];
    for (total, lengths, prefs) in cases {
        let r = Length::resolve(total, lengths, prefs);
        let sum: u32 = r.iter().map(|v| *v as u32).sum();
        assert!(sum <= total as u32);
    }
    // with a Fill present the budget is exhausted exactly
    let r = Length::resolve(100, vec![Length::Fixed(30), Length::Fill, Length::Fill], vec![0, 0, 0]);
    let sum: u32 = r.iter().map(|v| *v as u32).sum();
    assert_eq!(sum, 100);
}
