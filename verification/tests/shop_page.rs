use farm_os::models::OfferView;
use farm_os::offers::{check_offer, new_offer, offer_after_set, shop_listings, DateOffers};
use farm_os::shop::{
    as_of_now, check_page, esc, format_as_of_line, format_price_cad, format_ready_date, harvest_dates,
    render_html, require_checkout_url, shop_dir, shop_page_path,
};

fn view(date: &str, crop: &str, name: &str, price: Option<&str>, cents: Option<i64>, remaining: i64) -> OfferView {
    OfferView {
        id: Some(format!("{crop}-{date}")),
        harvest_date: date.into(),
        crop_id: crop.into(),
        crop_name: name.into(),
        price_cents: cents,
        stripe_price_id: price.map(|p| p.to_string()),
        stripe_link_url: None,
        available: remaining + 1,
        sold: 1,
        remaining,
    }
}

#[test]
fn escaping_prices_and_dates() {
    assert_eq!(esc("a & <b> \"c\""), "a &amp; &lt;b&gt; &quot;c&quot;");
    assert_eq!(format_price_cad(1200), "$12.00");
    assert_eq!(format_price_cad(1205), "$12.05");
    assert_eq!(format_price_cad(-50), "$0.50");
    assert_eq!(format_price_cad(-250), "$-2.50");
    assert_eq!(format_ready_date("2026-08-14"), "Ready Friday 14 August");
    assert_eq!(format_ready_date("soon"), "soon");
    assert_eq!(format_as_of_line(15, 0, 4), "3 pm Friday");
    assert_eq!(format_as_of_line(0, 5, 0), "12:05 am Monday");
    assert!(!as_of_now().is_empty());
}

#[test]
fn page_lists_the_next_date_only() {
    let listings = vec![
        view("2026-08-14", "dun-peas", "Dun & Peas", Some("price_a"), Some(1100), 4),
        view("2026-08-14", "kale", "Kale", None, Some(900), 2),
        view("2026-08-21", "radish", "Radish", Some("price_r"), Some(800), 5),
    ];
    let html = render_html(&listings, "3 pm Friday", "https://checkout.example.com/");
    assert!(html.starts_with("<!DOCTYPE html>"));
    assert!(html.contains("<h1>Ready Friday 14 August</h1>"));
    assert!(html.contains("data-price-id=\"price_a\" data-price-cents=\"1100\" data-remaining=\"4\" data-available=\"5\" data-sold=\"1\""));
    assert!(html.contains("<div class=\"name\">Dun &amp; Peas</div>"));
    assert!(html.contains("$11.00 · 4 left"));
    assert!(!html.contains("price_r"));
    assert!(!html.contains("Kale"));
    assert!(html.contains("data-checkout=\"https://checkout.example.com/\" data-harvest=\"2026-08-14\""));
    assert!(html.contains("<button type=\"button\" class=\"pay\" id=\"pay\" disabled>Pay</button>"));
    assert!(html.contains("<script>"));
    assert!(html.contains("Availability shown as of 3 pm Friday."));
    assert!(check_page(&html).is_ok());
    assert!(html.len() < 100 * 1024);
}

#[test]
fn empty_page_says_nothing_for_sale() {
    let html = render_html(&vec![], "9 am Monday", "https://c.example/");
    assert!(html.contains("<h1>Nothing for sale right now</h1>"));
    assert_eq!(html.matches("Nothing available to buy right now.").count(), 2);
    assert!(!html.contains("<script>"));
}

#[test]
fn page_refuses_key_like_text_and_size() {
    assert_eq!(
        check_page("<p>rk_test_123</p>").unwrap_err(),
        "Refusing to write a shop page that looks like it contains a Stripe key."
    );
    assert!(check_page("<p>SK_live</p>").is_err());
    let big = "a".repeat(102400);
    assert_eq!(
        check_page(&big).unwrap_err(),
        "Shop page is 102400 bytes — over the 100 KB budget. Remove content and try again."
    );
}

#[test]
fn listings_are_sellable_and_sorted() {
    let groups = vec![
        DateOffers {
            remaining_trays: 3,
            offers: vec![
                view("2026-08-21", "radish", "Radish", Some("price_r"), Some(800), 5),
                view("2026-08-21", "kale", "Kale", Some("price_k"), Some(900), 2),
                view("2026-08-21", "beet", "Beet", Some(""), Some(900), 2),
            ],
        },
        DateOffers { remaining_trays: 0, offers: vec![view("2026-08-07", "pea", "Pea", Some("price_p"), Some(900), 2)] },
        DateOffers {
            remaining_trays: 5,
            offers: vec![
                view("2026-08-14", "mix", "Mix", Some("price_m"), None, 2),
                view("2026-08-14", "dun-peas", "Dun peas", Some("price_d"), Some(1100), 0),
                view("2026-08-14", "sunflower", "Sunflower", Some("price_s"), Some(1000), 1),
            ],
        },
    ];
    let out = shop_listings(groups);
    let names: Vec<&str> = out.iter().map(|o| o.crop_name.as_str()).collect();
    assert_eq!(names, vec!["Sunflower", "Kale", "Radish"]);
    assert_eq!(harvest_dates(&out), vec!["2026-08-14".to_string(), "2026-08-21".to_string()]);
}

#[test]
fn setting_an_offer() {
    let rows = vec![view("2026-08-14", "kale", "Kale", None, None, 2)];
    assert_eq!(check_offer(&rows, "kale", 0).unwrap_err(), "Price must be greater than zero.");
    assert_eq!(check_offer(&rows, "pea", 100).unwrap_err(), "That crop has no trays for this harvest date.");
    let i = check_offer(&rows, "kale", 100).unwrap();
    let o = new_offer("off1".into(), "2026-08-14", "kale", 100, "now".into());
    assert_eq!(o.price_cents, 100);
    let v = offer_after_set(&rows[i], "off1".into(), "2026-08-14", "kale", 100, "price_k".into());
    assert_eq!(v.stripe_price_id, Some("price_k".to_string()));
    assert_eq!(v.remaining, 2);
}

#[test]
fn shop_paths_sit_in_the_farm_folder() {
    let d = shop_dir("/farm");
    assert!(d.starts_with("/farm") && d.ends_with("shop"));
    let p = shop_page_path("/farm");
    assert!(p.starts_with("/farm") && p.ends_with("index.html"));
    assert!(p.contains("shop"));
}

#[test]
fn a_shop_page_needs_a_checkout_address() {
    assert_eq!(require_checkout_url(Some("https://pay.example")).unwrap(), "https://pay.example");
    assert_eq!(
        require_checkout_url(None).unwrap_err(),
        "Add your checkout address in Sell online before publishing a shop page."
    );
}
