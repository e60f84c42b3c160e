use tft_iq::cart::{calculate_total_price, CartItem, Coupon};

fn cart() -> Vec<CartItem> {
    let item = |name: &str, category: &str, price: i32| CartItem {
        name: name.to_string(),
        category: category.to_string(),
        price,
    };
    vec![item("셔츠", "의류", 100), item("청바지", "의류", 50), item("키보드", "전자기기", 30)]
}

fn clothing(amount: i32) -> Option<Coupon> {
    Some(Coupon { target_category: "의류".to_string(), discount_amount: amount })
}

#[test]
fn cart_with_a_coupon() {
    assert_eq!(calculate_total_price(&cart(), &clothing(40)), 100);
}

#[test]
fn cart_without_a_coupon() {
    assert_eq!(calculate_total_price(&cart(), &None), 180);
}

#[test]
fn discount_stops_at_nothing() {
    assert_eq!(calculate_total_price(&cart(), &clothing(60)), 70);
    assert_eq!(calculate_total_price(&cart(), &clothing(1000)), 30);
    assert_eq!(calculate_total_price(&vec![], &clothing(1)), 0);
}
