use rainbow::ok_kanye::KanyeQuote;

#[test]
fn greeting_carries_the_quote() {
    let quote = KanyeQuote { quote: "Keep squares out yo circle".to_string() };
    assert_eq!(quote.greeting(), "Good morning! Kanye says: Keep squares out yo circle");
    assert_eq!(KanyeQuote { quote: String::new() }.greeting(), "Good morning! Kanye says: ");
}
