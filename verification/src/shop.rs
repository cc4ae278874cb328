//! The customer shop page: one static HTML file listing what can be bought
//! for the next harvest date, with a cart that posts to the checkout address.
//! Stripe collects payment only.

use chrono::{Datelike, Timelike};
use vstd::prelude::*;
use crate::dates::{iso_date_fields, long_month, long_month_name, parse_iso_date, weekday_name, weekday_str};
use crate::models::OfferView;
use crate::money::non_empty;
use crate::text::{
    contains, contains_seq, dec_int, dec_nat, has_prefix, has_suffix, lower_seq, push_char, push_int,
    push_nat, push_str, push_two_digits, str_eq, to_ascii_lowercase, two_digits,
};
use crate::trays::opt_view;

verus! {

// --- Where the page lives -------------------------------------------------------

/// A Windows verbatim path (`\\?\` before the rest): pushing onto one
/// normalises the pushed part, so the plain forms below need not hold.
pub open spec fn verbatim_path(base: Seq<char>) -> bool {
    base.len() >= 4 && base[0] == '\\' && base[1] == '\\' && base[2] == '?' && base[3] == '\\'
}

/// `base` joined with a relative `part`: nothing between them (an empty base,
/// a base ending in a separator, a bare drive), or one separator. Of a
/// verbatim base nothing is said.
pub open spec fn path_join(base: Seq<char>, part: Seq<char>, r: Seq<char>) -> bool {
    ||| verbatim_path(base)
    ||| r == base + part
    ||| r == base + seq!['/'] + part
    ||| r == base + seq!['\\'] + part
}

/// `Path::join`, written back as text. Trusted: std documents that pushing a
/// relative part onto a path adds a separator unless the path is empty or
/// already ends in one (or is a bare drive), then the part; the separator is
/// the platform's (`/` or `\`). `part` holds no separator or drive colon and
/// is neither `.` nor `..`, so it is a plain relative name, and both are
/// UTF-8, so the text comes back whole. Which separator is used is not
/// stated, nor what comes back for a verbatim base (`\\?\...`), where std
/// normalises the result.
#[verifier::external_body]
fn join_path(base: &str, part: &str) -> (r: String)
    requires
        part@.len() > 0,
        part@ != seq!['.'],
        part@ != seq!['.', '.'],
        forall|i: int| 0 <= i < part@.len() ==> part@[i] != '/' && part@[i] != '\\' && part@[i] != ':',
    ensures
        path_join(base@, part@, r@),
{
    std::path::Path::new(base).join(part).to_string_lossy().into_owned()
}

/// A shop page needs the checkout address carts are posted to.
pub fn require_checkout_url(url: Option<&str>) -> (r: Result<&str, String>)
    ensures
        match url {
            Some(u) => r == Ok::<&str, String>(u),
            None => r matches Err(e) && e@ == "Add your checkout address in Sell online before publishing a shop page."@,
        },
{
    match url {
        Some(u) => Ok(u),
        None => Err(String::from_str("Add your checkout address in Sell online before publishing a shop page.")),
    }
}

/// The `shop` folder inside the farm folder.
pub fn shop_dir(folder_path: &str) -> (r: String)
    ensures
        path_join(folder_path@, "shop"@, r@),
{
    proof {
        reveal_strlit("shop");
        assert("shop"@.len() == 4);
    }
    join_path(folder_path, "shop")
}

/// `shop/index.html` inside the farm folder.
pub fn shop_page_path(folder_path: &str) -> (r: String)
    ensures
        exists|d: Seq<char>| path_join(folder_path@, "shop"@, d) && #[trigger] path_join(d, "index.html"@, r@),
{
    let dir = shop_dir(folder_path);
    proof {
        reveal_strlit("index.html");
        assert("index.html"@.len() == 10);
    }
    let r = join_path(dir.as_str(), "index.html");
    proof {
        assert(path_join(folder_path@, "shop"@, dir@) && path_join(dir@, "index.html"@, r@));
    }
    r
}

// --- Escaping, prices, dates ------------------------------------------------------

/// HTML escaping of `&`, `<`, `>` and `"`.
pub open spec fn esc_char(c: char) -> Seq<char> {
    if c == '&' {
        "&amp;"@
    } else if c == '<' {
        "&lt;"@
    } else if c == '>' {
        "&gt;"@
    } else if c == '"' {
        "&quot;"@
    } else {
        seq![c]
    }
}

pub open spec fn esc_seq(s: Seq<char>) -> Seq<char>
    decreases s.len(),
{
    if s.len() == 0 {
        Seq::empty()
    } else {
        esc_seq(s.drop_last()) + esc_char(s.last())
    }
}

pub fn esc(s: &str) -> (r: String)
    ensures
        r@ == esc_seq(s@),
{
    let n = s.unicode_len();
    let mut out = String::new();
    let mut i: usize = 0;
    while i < n
        invariant
            n == s@.len(),
            i <= n,
            out@ == esc_seq(s@.take(i as int)),
        decreases n - i,
    {
        let c = s.get_char(i);
        if c == '&' {
            push_str(&mut out, "&amp;");
        } else if c == '<' {
            push_str(&mut out, "&lt;");
        } else if c == '>' {
            push_str(&mut out, "&gt;");
        } else if c == '"' {
            push_str(&mut out, "&quot;");
        } else {
            push_char(&mut out, c);
        }
        proof {
            assert(s@.take(i + 1).drop_last() =~= s@.take(i as int));
            assert(s@.take(i + 1).last() == c);
            if c != '&' && c != '<' && c != '>' && c != '"' {
                assert(out@ =~= esc_seq(s@.take(i as int)) + seq![c]);
            }
        }
        i = i + 1;
    }
    assert(s@.take(n as int) =~= s@);
    out
}

pub open spec fn abs_int(v: int) -> int {
    if v < 0 { -v } else { v }
}

/// `$D.CC` with the whole units rounded toward zero and the cents taken
/// without sign (so -50 cents reads `$0.50`).
pub open spec fn price_text(cents: int) -> Seq<char> {
    let mag = abs_int(cents);
    let whole = if cents < 0 { -(mag / 100) } else { mag / 100 };
    "$"@ + dec_int(whole) + "."@ + two_digits((mag % 100) as nat)
}

pub fn format_price_cad(cents: i64) -> (r: String)
    ensures
        r@ == price_text(cents as int),
{
    let mag: u64 = if cents < 0 { (0i128 - cents as i128) as u64 } else { cents as u64 };
    let whole_mag: u64 = mag / 100;
    let whole: i64 = if cents < 0 { (0i128 - whole_mag as i128) as i64 } else { whole_mag as i64 };
    let mut s = String::from_str("$");
    push_int(&mut s, whole);
    push_str(&mut s, ".");
    push_two_digits(&mut s, mag % 100);
    s
}

/// `Ready Friday 14 August` for a `YYYY-MM-DD` date, or the text unchanged.
pub open spec fn ready_date_text(s: Seq<char>) -> Seq<char> {
    match iso_date_fields(s) {
        Some((y, m, d, w)) => "Ready "@ + weekday_name(w as int) + " "@ + dec_nat(d as nat) + " "@ + long_month(m as int),
        None => s,
    }
}

pub fn format_ready_date(yyyy_mm_dd: &str) -> (r: String)
    ensures
        r@ == ready_date_text(yyyy_mm_dd@),
{
    match parse_iso_date(yyyy_mm_dd) {
        Some((_y, m, d, w)) => {
            let mut s = String::from_str("Ready ");
            push_str(&mut s, weekday_str(w));
            push_str(&mut s, " ");
            push_nat(&mut s, d as u64);
            push_str(&mut s, " ");
            push_str(&mut s, long_month_name(m));
            s
        },
        None => String::from_str(yyyy_mm_dd),
    }
}

// --- The page template ----------------------------------------------------------------

/// The note shown when nothing can be bought.
pub open spec fn muted_text() -> Seq<char> {
    "<p class=\"muted\">Nothing available to buy right now.</p>"@
}

/// The total and the Pay button.
pub open spec fn pay_block_text() -> Seq<char> {
    "<div class=\"total-row\">Total <strong id=\"total\">$0.00</strong></div>\n<button type=\"button\" class=\"pay\" id=\"pay\" disabled>Pay</button>\n<p class=\"err\" id=\"err\" hidden></p>"@
}

/// The cart script: plain JavaScript that posts the cart to the checkout
/// address and mints a new reference on every Pay.
pub open spec fn script_text() -> Seq<char> {
    "<script>\n(function(){\n  var root=document.getElementById('cart');\n  if(!root)return;\n  var endpoint=root.getAttribute('data-checkout');\n  var harvest=root.getAttribute('data-harvest');\n  var items=[].slice.call(document.querySelectorAll('.item[data-price-id]'));\n  var totalEl=document.getElementById('total');\n  var pay=document.getElementById('pay');\n  var err=document.getElementById('err');\n  var busy=false;\n  function money(c){return '$'+(c/100).toFixed(2);}\n  function readCart(){\n    var lines=[],total=0;\n    items.forEach(function(el){\n      var qty=parseInt(el.querySelector('.qty').textContent,10)||0;\n      var max=parseInt(el.getAttribute('data-remaining'),10)||0;\n      if(qty<0)qty=0;if(qty>max)qty=max;\n      el.querySelector('.qty').textContent=String(qty);\n      if(qty>=1){\n        var cents=parseInt(el.getAttribute('data-price-cents'),10)||0;\n        lines.push({priceId:el.getAttribute('data-price-id'),quantity:qty});\n        total+=cents*qty;\n      }\n    });\n    return {lines:lines,total:total};\n  }\n  function paint(){\n    var c=readCart();\n    if(totalEl)totalEl.textContent=money(c.total);\n    if(pay)pay.disabled=busy||c.lines.length===0;\n  }\n  function showErr(msg){if(!err)return;err.hidden=!msg;err.textContent=msg||'';}\n  items.forEach(function(el){\n    el.querySelectorAll('.step').forEach(function(btn){\n      btn.addEventListener('click',function(){\n        var qtyEl=el.querySelector('.qty');\n        var qty=parseInt(qtyEl.textContent,10)||0;\n        var max=parseInt(el.getAttribute('data-remaining'),10)||0;\n        var dir=parseInt(btn.getAttribute('data-dir'),10)||0;\n        qty=Math.max(0,Math.min(max,qty+dir));\n        qtyEl.textContent=String(qty);\n        showErr('');\n        paint();\n      });\n    });\n  });\n  if(pay){\n    pay.addEventListener('click',function(){\n      if(busy||pay.disabled)return;\n      var c=readCart();\n      if(!c.lines.length)return;\n      var reference=(crypto.randomUUID&&crypto.randomUUID())||(Date.now()+'-'+Math.random().toString(16).slice(2));\n      busy=true;paint();showErr('');\n      fetch(endpoint,{\n        method:'POST',\n        headers:{'Content-Type':'application/json'},\n        body:JSON.stringify({\n          reference:reference,\n          harvestDate:harvest,\n          currency:'cad',\n          total:c.total,\n          lines:c.lines\n        })\n      }).then(function(res){\n        if(res.status===200)return res.json().then(function(body){\n          if(body&&body.url){window.location=body.url;return;}\n          throw new Error('no url');\n        });\n        if(res.status===409){\n          showErr('Prices have changed. Reload the page and try again.');\n          return;\n        }\n        showErr(\"Couldn't start checkout. Try again in a moment.\");\n      }).catch(function(){\n        showErr(\"Couldn't start checkout. Try again in a moment.\");\n      }).then(function(){\n        busy=false;paint();\n      });\n    });\n  }\n  paint();\n})();\n</script>"@
}

fn muted_html() -> (r: &'static str)
    ensures
        r@ == muted_text(),
{
    "<p class=\"muted\">Nothing available to buy right now.</p>"
}

fn pay_block_html() -> (r: &'static str)
    ensures
        r@ == pay_block_text(),
{
    "<div class=\"total-row\">Total <strong id=\"total\">$0.00</strong></div>\n<button type=\"button\" class=\"pay\" id=\"pay\" disabled>Pay</button>\n<p class=\"err\" id=\"err\" hidden></p>"
}

fn script_html() -> (r: &'static str)
    ensures
        r@ == script_text(),
{
    "<script>\n(function(){\n  var root=document.getElementById('cart');\n  if(!root)return;\n  var endpoint=root.getAttribute('data-checkout');\n  var harvest=root.getAttribute('data-harvest');\n  var items=[].slice.call(document.querySelectorAll('.item[data-price-id]'));\n  var totalEl=document.getElementById('total');\n  var pay=document.getElementById('pay');\n  var err=document.getElementById('err');\n  var busy=false;\n  function money(c){return '$'+(c/100).toFixed(2);}\n  function readCart(){\n    var lines=[],total=0;\n    items.forEach(function(el){\n      var qty=parseInt(el.querySelector('.qty').textContent,10)||0;\n      var max=parseInt(el.getAttribute('data-remaining'),10)||0;\n      if(qty<0)qty=0;if(qty>max)qty=max;\n      el.querySelector('.qty').textContent=String(qty);\n      if(qty>=1){\n        var cents=parseInt(el.getAttribute('data-price-cents'),10)||0;\n        lines.push({priceId:el.getAttribute('data-price-id'),quantity:qty});\n        total+=cents*qty;\n      }\n    });\n    return {lines:lines,total:total};\n  }\n  function paint(){\n    var c=readCart();\n    if(totalEl)totalEl.textContent=money(c.total);\n    if(pay)pay.disabled=busy||c.lines.length===0;\n  }\n  function showErr(msg){if(!err)return;err.hidden=!msg;err.textContent=msg||'';}\n  items.forEach(function(el){\n    el.querySelectorAll('.step').forEach(function(btn){\n      btn.addEventListener('click',function(){\n        var qtyEl=el.querySelector('.qty');\n        var qty=parseInt(qtyEl.textContent,10)||0;\n        var max=parseInt(el.getAttribute('data-remaining'),10)||0;\n        var dir=parseInt(btn.getAttribute('data-dir'),10)||0;\n        qty=Math.max(0,Math.min(max,qty+dir));\n        qtyEl.textContent=String(qty);\n        showErr('');\n        paint();\n      });\n    });\n  });\n  if(pay){\n    pay.addEventListener('click',function(){\n      if(busy||pay.disabled)return;\n      var c=readCart();\n      if(!c.lines.length)return;\n      var reference=(crypto.randomUUID&&crypto.randomUUID())||(Date.now()+'-'+Math.random().toString(16).slice(2));\n      busy=true;paint();showErr('');\n      fetch(endpoint,{\n        method:'POST',\n        headers:{'Content-Type':'application/json'},\n        body:JSON.stringify({\n          reference:reference,\n          harvestDate:harvest,\n          currency:'cad',\n          total:c.total,\n          lines:c.lines\n        })\n      }).then(function(res){\n        if(res.status===200)return res.json().then(function(body){\n          if(body&&body.url){window.location=body.url;return;}\n          throw new Error('no url');\n        });\n        if(res.status===409){\n          showErr('Prices have changed. Reload the page and try again.');\n          return;\n        }\n        showErr(\"Couldn't start checkout. Try again in a moment.\");\n      }).catch(function(){\n        showErr(\"Couldn't start checkout. Try again in a moment.\");\n      }).then(function(){\n        busy=false;paint();\n      });\n    });\n  }\n  paint();\n})();\n</script>"
}

pub open spec fn item_text(pid: Seq<char>, cents: int, rem: int, avail: int, sold: int, name: Seq<char>, price: Seq<char>, idx: nat) -> Seq<char> {
    "<div class=\"item\" data-price-id=\""@
        + pid + "\" data-price-cents=\""@
        + dec_int(cents) + "\" data-remaining=\""@
        + dec_int(rem) + "\" data-available=\""@
        + dec_int(avail) + "\" data-sold=\""@
        + dec_int(sold) + "\">\n  <div class=\"row\">\n    <div>\n      <div class=\"name\">"@
        + name + "</div>\n      <div class=\"price\">"@
        + price + " · "@
        + dec_int(rem) + " left</div>\n    </div>\n    <div class=\"stepper\" data-stepper=\""@
        + dec_nat(idx) + "\">\n      <button type=\"button\" class=\"step\" data-dir=\"-1\" aria-label=\"Fewer\">−</button>\n      <span class=\"qty\" data-qty=\""@
        + dec_nat(idx) + "\">0</span>\n      <button type=\"button\" class=\"step\" data-dir=\"1\" aria-label=\"More\">+</button>\n    </div>\n  </div>\n</div>\n"@
}

fn item_html(pid: &str, cents: i64, rem: i64, avail: i64, sold: i64, name: &str, price: &str, idx: usize) -> (r: String)
    ensures
        r@ == item_text(pid@, cents as int, rem as int, avail as int, sold as int, name@, price@, idx as nat),
{
    let mut s = String::from_str("<div class=\"item\" data-price-id=\"");
    push_str(&mut s, pid);
    push_str(&mut s, "\" data-price-cents=\"");
    push_int(&mut s, cents);
    push_str(&mut s, "\" data-remaining=\"");
    push_int(&mut s, rem);
    push_str(&mut s, "\" data-available=\"");
    push_int(&mut s, avail);
    push_str(&mut s, "\" data-sold=\"");
    push_int(&mut s, sold);
    push_str(&mut s, "\">\n  <div class=\"row\">\n    <div>\n      <div class=\"name\">");
    push_str(&mut s, name);
    push_str(&mut s, "</div>\n      <div class=\"price\">");
    push_str(&mut s, price);
    push_str(&mut s, " · ");
    push_int(&mut s, rem);
    push_str(&mut s, " left</div>\n    </div>\n    <div class=\"stepper\" data-stepper=\"");
    push_nat(&mut s, idx as u64);
    push_str(&mut s, "\">\n      <button type=\"button\" class=\"step\" data-dir=\"-1\" aria-label=\"Fewer\">−</button>\n      <span class=\"qty\" data-qty=\"");
    push_nat(&mut s, idx as u64);
    push_str(&mut s, "\">0</span>\n      <button type=\"button\" class=\"step\" data-dir=\"1\" aria-label=\"More\">+</button>\n    </div>\n  </div>\n</div>\n");
    s
}

pub open spec fn page_text(checkout: Seq<char>, harvest: Seq<char>, ready: Seq<char>, items: Seq<char>, pay: Seq<char>, as_of: Seq<char>, script: Seq<char>) -> Seq<char> {
    "<!DOCTYPE html>\n<html lang=\"en\">\n<head>\n<meta charset=\"utf-8\">\n<meta name=\"viewport\" content=\"width=device-width,initial-scale=1\">\n<title>Prairie Roots — shop</title>\n<style>\n:root{--fg:#14201a;--muted:#5c6b63;--line:#d7ddd9;--bg:#f7f5f0;--btn:#1f3d2f;--btnfg:#fff;--btn-dis:#9aa89f}\n*{box-sizing:border-box}\nbody{margin:0;font:16px/1.45 system-ui,-apple-system,Segoe UI,Roboto,Helvetica,Arial,sans-serif;color:var(--fg);background:var(--bg)}\nmain{max-width:28rem;margin:0 auto;padding:1.25rem 1.1rem 3rem}\nh1{font-size:1.55rem;font-weight:650;margin:0 0 .75rem;letter-spacing:-.02em}\n.item{border-top:1px solid var(--line);padding:.9rem 0}\n.item:first-of-type{border-top:0;padding-top:0}\n.row{display:flex;align-items:center;justify-content:space-between;gap:1rem}\n.name{font-weight:600}\n.price,.muted{color:var(--muted);font-size:.92rem}\n.stepper{display:flex;align-items:center;gap:.35rem}\n.step{width:2.4rem;height:2.4rem;border:1px solid var(--line);border-radius:.5rem;background:#fff;font-size:1.25rem;line-height:1;color:var(--fg)}\n.qty{min-width:1.5rem;text-align:center;font-weight:600}\n.total-row{display:flex;justify-content:space-between;align-items:baseline;margin:1.1rem 0 .5rem;font-size:1.1rem}\n.pay{display:block;width:100%;margin:.35rem 0 .75rem;padding:.95rem 1rem;border:0;border-radius:.65rem;background:var(--btn);color:var(--btnfg);font-size:1.1rem;font-weight:600}\n.pay:disabled{background:var(--btn-dis);color:#eef2ef}\n.err{color:#8a2b2b;font-size:.92rem;margin:.25rem 0 .75rem}\n.note{font-size:.88rem;color:var(--muted);margin:0 0 2.5rem}\n.below{border-top:1px solid var(--line);padding-top:1.5rem;color:var(--muted);font-size:.95rem}\n.below h2{color:var(--fg);font-size:1.05rem;margin:0 0 .5rem}\n.below p{margin:.4rem 0}\n</style>\n</head>\n<body>\n<main id=\"cart\" data-checkout=\""@
        + checkout + "\" data-harvest=\""@
        + harvest + "\">\n<h1>"@
        + ready + "</h1>\n<div id=\"items\">\n"@
        + items + "\n</div>\n"@
        + pay + "\n<p class=\"note\">Availability shown as of "@
        + as_of + ". Not a guarantee — if we sell out we'll refund you or offer a substitute.</p>\n<section class=\"below\">\n<h2>Who we are</h2>\n<p>Small-batch microgreens, grown locally. Collection details are on your Stripe receipt after you pay.</p>\n<p>Questions? Reply to the receipt email — Stripe's receipt is your confirmation.</p>\n</section>\n</main>\n"@
        + script + "\n</body>\n</html>\n"@
}

fn page_html(checkout: &str, harvest: &str, ready: &str, items: &str, pay: &str, as_of: &str, script: &str) -> (r: String)
    ensures
        r@ == page_text(checkout@, harvest@, ready@, items@, pay@, as_of@, script@),
{
    let mut s = String::from_str("<!DOCTYPE html>\n<html lang=\"en\">\n<head>\n<meta charset=\"utf-8\">\n<meta name=\"viewport\" content=\"width=device-width,initial-scale=1\">\n<title>Prairie Roots — shop</title>\n<style>\n:root{--fg:#14201a;--muted:#5c6b63;--line:#d7ddd9;--bg:#f7f5f0;--btn:#1f3d2f;--btnfg:#fff;--btn-dis:#9aa89f}\n*{box-sizing:border-box}\nbody{margin:0;font:16px/1.45 system-ui,-apple-system,Segoe UI,Roboto,Helvetica,Arial,sans-serif;color:var(--fg);background:var(--bg)}\nmain{max-width:28rem;margin:0 auto;padding:1.25rem 1.1rem 3rem}\nh1{font-size:1.55rem;font-weight:650;margin:0 0 .75rem;letter-spacing:-.02em}\n.item{border-top:1px solid var(--line);padding:.9rem 0}\n.item:first-of-type{border-top:0;padding-top:0}\n.row{display:flex;align-items:center;justify-content:space-between;gap:1rem}\n.name{font-weight:600}\n.price,.muted{color:var(--muted);font-size:.92rem}\n.stepper{display:flex;align-items:center;gap:.35rem}\n.step{width:2.4rem;height:2.4rem;border:1px solid var(--line);border-radius:.5rem;background:#fff;font-size:1.25rem;line-height:1;color:var(--fg)}\n.qty{min-width:1.5rem;text-align:center;font-weight:600}\n.total-row{display:flex;justify-content:space-between;align-items:baseline;margin:1.1rem 0 .5rem;font-size:1.1rem}\n.pay{display:block;width:100%;margin:.35rem 0 .75rem;padding:.95rem 1rem;border:0;border-radius:.65rem;background:var(--btn);color:var(--btnfg);font-size:1.1rem;font-weight:600}\n.pay:disabled{background:var(--btn-dis);color:#eef2ef}\n.err{color:#8a2b2b;font-size:.92rem;margin:.25rem 0 .75rem}\n.note{font-size:.88rem;color:var(--muted);margin:0 0 2.5rem}\n.below{border-top:1px solid var(--line);padding-top:1.5rem;color:var(--muted);font-size:.95rem}\n.below h2{color:var(--fg);font-size:1.05rem;margin:0 0 .5rem}\n.below p{margin:.4rem 0}\n</style>\n</head>\n<body>\n<main id=\"cart\" data-checkout=\"");
    push_str(&mut s, checkout);
    push_str(&mut s, "\" data-harvest=\"");
    push_str(&mut s, harvest);
    push_str(&mut s, "\">\n<h1>");
    push_str(&mut s, ready);
    push_str(&mut s, "</h1>\n<div id=\"items\">\n");
    push_str(&mut s, items);
    push_str(&mut s, "\n</div>\n");
    push_str(&mut s, pay);
    push_str(&mut s, "\n<p class=\"note\">Availability shown as of ");
    push_str(&mut s, as_of);
    push_str(&mut s, ". Not a guarantee — if we sell out we'll refund you or offer a substitute.</p>\n<section class=\"below\">\n<h2>Who we are</h2>\n<p>Small-batch microgreens, grown locally. Collection details are on your Stripe receipt after you pay.</p>\n<p>Questions? Reply to the receipt email — Stripe's receipt is your confirmation.</p>\n</section>\n</main>\n");
    push_str(&mut s, script);
    push_str(&mut s, "\n</body>\n</html>\n");
    s
}

// --- The page ----------------------------------------------------------------------

/// The date the page sells: that of the first listing, or none.
pub open spec fn next_date(ls: Seq<OfferView>) -> Seq<char> {
    if ls.len() > 0 { ls[0].harvest_date@ } else { Seq::empty() }
}

/// A listing appears on the page when it is for the date sold and has a
/// Stripe Price.
pub open spec fn listed(o: OfferView, next: Seq<char>) -> bool {
    o.harvest_date@ == next && non_empty(opt_view(o.stripe_price_id)) is Some
}

pub open spec fn cents_of(o: OfferView) -> int {
    match o.price_cents {
        Some(c) => c as int,
        None => 0,
    }
}

pub open spec fn item_of(o: OfferView, idx: nat) -> Seq<char> {
    item_text(
        esc_seq(o.stripe_price_id->0@),
        cents_of(o),
        o.remaining as int,
        o.available as int,
        o.sold as int,
        esc_seq(o.crop_name@),
        price_text(cents_of(o)),
        idx,
    )
}

/// How many of the first `k` listings appear.
pub open spec fn items_count(ls: Seq<OfferView>, next: Seq<char>, k: int) -> nat
    decreases k,
{
    if k <= 0 {
        0
    } else if listed(ls[k - 1], next) {
        items_count(ls, next, k - 1) + 1
    } else {
        items_count(ls, next, k - 1)
    }
}

/// The item blocks of the first `k` listings, numbered in order.
pub open spec fn items_text(ls: Seq<OfferView>, next: Seq<char>, k: int) -> Seq<char>
    decreases k,
{
    if k <= 0 {
        Seq::empty()
    } else if listed(ls[k - 1], next) {
        items_text(ls, next, k - 1) + item_of(ls[k - 1], items_count(ls, next, k - 1))
    } else {
        items_text(ls, next, k - 1)
    }
}

/// The whole page for the listings (sorted by date, then crop name), the
/// "as of" line and the checkout address.
pub open spec fn html_text(ls: Seq<OfferView>, as_of: Seq<char>, checkout: Seq<char>) -> Seq<char> {
    let next = next_date(ls);
    let ready = if next.len() == 0 { "Nothing for sale right now"@ } else { ready_date_text(next) };
    let items = items_text(ls, next, ls.len() as int);
    let count = items_count(ls, next, ls.len() as int);
    page_text(
        esc_seq(checkout),
        esc_seq(next),
        esc_seq(ready),
        if items.len() == 0 { muted_text() } else { items },
        if next.len() == 0 || count == 0 { muted_text() } else { pay_block_text() },
        esc_seq(as_of),
        if count == 0 { Seq::empty() } else { script_text() },
    )
}

pub fn render_html(listings: &Vec<OfferView>, as_of: &str, checkout_url: &str) -> (r: String)
    requires
        listings@.len() < usize::MAX,
    ensures
        r@ == html_text(listings@, as_of@, checkout_url@),
{
    let ghost ls = listings@;
    let next: &str = if listings.len() > 0 { listings[0].harvest_date.as_str() } else { "" };
    proof {
        reveal_strlit("");
        assert(next@ == next_date(ls));
    }
    let ready = if next.unicode_len() == 0 {
        String::from_str("Nothing for sale right now")
    } else {
        format_ready_date(next)
    };
    let mut items = String::new();
    let mut idx: usize = 0;
    let n = listings.len();
    let mut i: usize = 0;
    while i < n
        invariant
            n == ls.len(),
            ls == listings@,
            n < usize::MAX,
            i <= n,
            idx <= i,
            idx == items_count(ls, next@, i as int),
            items@ == items_text(ls, next@, i as int),
        decreases n - i,
    {
        let offer = &listings[i];
        let pid: Option<&str> = match &offer.stripe_price_id {
            Some(p) => if p.unicode_len() > 0 { Some(p.as_str()) } else { None },
            None => None,
        };
        if str_eq(offer.harvest_date.as_str(), next) && pid.is_some() {
            let cents: i64 = match offer.price_cents {
                Some(c) => c,
                None => 0,
            };
            let price = format_price_cad(cents);
            let pid_e = esc(pid.unwrap());
            let name_e = esc(offer.crop_name.as_str());
            let block = item_html(pid_e.as_str(), cents, offer.remaining, offer.available, offer.sold, name_e.as_str(), price.as_str(), idx);
            push_str(&mut items, block.as_str());
            idx = idx + 1;
        }
        i = i + 1;
    }
    let items_final: String = if items.unicode_len() == 0 { String::from_str(muted_html()) } else { items };
    let pay: &str = if next.unicode_len() == 0 || idx == 0 { muted_html() } else { pay_block_html() };
    let script: &str = if idx == 0 { "" } else { script_html() };
    let ready_e = esc(ready.as_str());
    let as_of_e = esc(as_of);
    let checkout_e = esc(checkout_url);
    let harvest_e = esc(next);
    page_html(checkout_e.as_str(), harvest_e.as_str(), ready_e.as_str(), items_final.as_str(), pay, as_of_e.as_str(), script)
}

/// The harvest dates of the listings, each once, in first-seen order.
pub open spec fn distinct_dates(ls: Seq<OfferView>) -> Seq<Seq<char>>
    decreases ls.len(),
{
    if ls.len() == 0 {
        Seq::empty()
    } else {
        let prev = distinct_dates(ls.drop_last());
        if prev.contains(ls.last().harvest_date@) { prev } else { prev.push(ls.last().harvest_date@) }
    }
}

pub fn harvest_dates(listings: &Vec<OfferView>) -> (r: Vec<String>)
    ensures
        r@.map_values(|s: String| s@) == distinct_dates(listings@),
{
    let mut out: Vec<String> = Vec::new();
    let n = listings.len();
    let mut i: usize = 0;
    while i < n
        invariant
            n == listings@.len(),
            i <= n,
            out@.map_values(|s: String| s@) == distinct_dates(listings@.take(i as int)),
        decreases n - i,
    {
        let d = &listings[i].harvest_date;
        let ghost ov = out@.map_values(|s: String| s@);
        let mut seen = false;
        let mut j: usize = 0;
        while j < out.len()
            invariant
                ov == out@.map_values(|s: String| s@),
                j <= out@.len(),
                seen == exists|k: int| 0 <= k < j && ov[k] == d@,
            decreases out@.len() - j,
        {
            if str_eq(out[j].as_str(), d.as_str()) {
                seen = true;
            }
            proof {
                assert(ov[j as int] == out@[j as int]@);
            }
            j = j + 1;
        }
        proof {
            assert(listings@.take(i + 1).drop_last() =~= listings@.take(i as int));
            assert(listings@.take(i + 1).last() == listings@[i as int]);
            if seen {
                let k = choose|k: int| 0 <= k < out@.len() && ov[k] == d@;
                assert(ov.contains(d@));
            } else {
                assert(!ov.contains(d@));
            }
        }
        if !seen {
            let ghost before = out@;
            out.push(d.clone());
            proof {
                assert(out@.map_values(|s: String| s@) =~= before.map_values(|s: String| s@).push(d@));
            }
        }
        i = i + 1;
    }
    assert(listings@.take(n as int) =~= listings@);
    out
}

/// A page must stay under 100 KB and must not look like it carries a Stripe
/// key (`rk_` or `sk_`, in any case).
pub open spec fn page_problem(html: Seq<char>) -> Option<Seq<char>> {
    let size = vstd::utf8::encode_utf8(html).len();
    if size >= 102400 {
        Some("Shop page is "@ + dec_nat(size) + " bytes — over the 100 KB budget. Remove content and try again."@)
    } else if contains_seq(lower_seq(html), "rk_"@) || contains_seq(lower_seq(html), "sk_"@) {
        Some("Refusing to write a shop page that looks like it contains a Stripe key."@)
    } else {
        None
    }
}

pub fn check_page(html: &str) -> (r: Result<(), String>)
    requires
        vstd::utf8::encode_utf8(html@).len() <= usize::MAX,
    ensures
        match r {
            Ok(()) => page_problem(html@) is None,
            Err(e) => page_problem(html@) == Some(e@),
        },
{
    let size = html.len();
    assert(size == vstd::utf8::encode_utf8(html@).len());
    if size >= 102400 {
        let mut e = String::from_str("Shop page is ");
        push_nat(&mut e, size as u64);
        push_str(&mut e, " bytes — over the 100 KB budget. Remove content and try again.");
        return Err(e);
    }
    let lower = to_ascii_lowercase(html);
    if contains(lower.as_str(), "rk_") || contains(lower.as_str(), "sk_") {
        return Err(String::from_str("Refusing to write a shop page that looks like it contains a Stripe key."));
    }
    Ok(())
}

/// `3 pm Friday`, `3:05 pm Friday`: when the page's availability was read.
pub open spec fn as_of_text(hour: int, minute: int, weekday: int) -> Seq<char> {
    let (h12, ampm) = if hour == 0 {
        (12int, "am"@)
    } else if hour < 12 {
        (hour, "am"@)
    } else if hour == 12 {
        (12int, "pm"@)
    } else {
        (hour - 12, "pm"@)
    };
    (if minute == 0 {
        dec_nat(h12 as nat) + " "@ + ampm
    } else {
        dec_nat(h12 as nat) + ":"@ + two_digits(minute as nat) + " "@ + ampm
    }) + " "@ + weekday_name(weekday)
}

pub fn format_as_of_line(hour: u32, minute: u32, weekday: u32) -> (r: String)
    requires
        hour < 24,
        minute < 60,
        weekday < 7,
    ensures
        r@ == as_of_text(hour as int, minute as int, weekday as int),
{
    let (h12, ampm): (u32, &str) = if hour == 0 {
        (12, "am")
    } else if hour < 12 {
        (hour, "am")
    } else if hour == 12 {
        (12, "pm")
    } else {
        (hour - 12, "pm")
    };
    let mut s = String::new();
    push_nat(&mut s, h12 as u64);
    if minute != 0 {
        push_str(&mut s, ":");
        push_two_digits(&mut s, minute as u64);
    }
    push_str(&mut s, " ");
    push_str(&mut s, ampm);
    push_str(&mut s, " ");
    push_str(&mut s, weekday_str(weekday));
    proof {
        let t = as_of_text(hour as int, minute as int, weekday as int);
        assert(s@ =~= t);
    }
    s
}

/// `chrono::Local::now()`: hour, minute and weekday (from Monday) of the
/// local clock. Trusted: chrono documents hour 0..=23, minute 0..=59 and
/// seven weekdays; which moment comes back is the clock's.
#[verifier::external_body]
fn local_clock_now() -> (r: (u32, u32, u32))
    ensures
        r.0 < 24,
        r.1 < 60,
        r.2 < 7,
{
    let now = chrono::Local::now();
    (now.hour(), now.minute(), now.weekday().num_days_from_monday())
}

/// The "as of" line for the moment the page is written.
pub fn as_of_now() -> (r: String)
    ensures
        exists|h: int, m: int, w: int| 0 <= h < 24 && 0 <= m < 60 && 0 <= w < 7 && r@ == as_of_text(h, m, w),
{
    let (h, m, w) = local_clock_now();
    format_as_of_line(h, m, w)
}

} // verus!
