//! The overlay images of a calendar: one or two URLs for each locale and
//! month of a year.

use vstd::prelude::*;
use crate::text::{decimal, lemma_decimal_injective, same_text, u32_decimal};
use crate::url::{lemma_parts_distinct, lemma_split_right, locale_at, locales, no_repeats, views};

verus! {

/// Everything of an overlay URL up to, and including, its locale.
pub open spec fn overlay_prefix(
    year: u32,
    path: Seq<char>,
    hash: Seq<char>,
    month: nat,
    locale: Seq<char>,
) -> Seq<char> {
    "https://mp-prod-de-calendar-data.s3.eu-central-1.amazonaws.com"@ + path + "/"@ + hash + "_"@
        + decimal(year as nat) + "_"@ + decimal(month) + "_"@ + locale
}

/// Whether month `month` of locale `locale` has images: the Austrian locale
/// has only month 1, every other locale has months 0 to 12.
pub open spec fn has_month(locale: Seq<char>, month: nat) -> bool {
    !(locale == "de-AT"@ && month != 1)
}

/// The URLs of one month of one locale: none, a base and a mask image for a
/// refinement, or one plain image.
pub open spec fn overlay_month_urls(
    year: u32,
    path: Seq<char>,
    hash: Seq<char>,
    refinement: bool,
    locale: Seq<char>,
    month: nat,
) -> Seq<Seq<char>> {
    let prefix = overlay_prefix(year, path, hash, month, locale);
    if !has_month(locale, month) {
        Seq::empty()
    } else if refinement {
        seq![prefix + "_refBase.png"@, prefix + "_refMask.png"@]
    } else {
        seq![prefix + ".png"@]
    }
}

/// The URLs of months `0..n` of one locale, month by month.
pub open spec fn overlay_locale_urls(
    year: u32,
    path: Seq<char>,
    hash: Seq<char>,
    refinement: bool,
    locale: Seq<char>,
    n: nat,
) -> Seq<Seq<char>>
    decreases n,
{
    if n == 0 {
        Seq::empty()
    } else {
        overlay_locale_urls(year, path, hash, refinement, locale, (n - 1) as nat)
            + overlay_month_urls(year, path, hash, refinement, locale, (n - 1) as nat)
    }
}

/// The URLs of all thirteen months of the first `k` locales, locale by locale.
pub open spec fn overlay_urls_upto(
    year: u32,
    path: Seq<char>,
    hash: Seq<char>,
    refinement: bool,
    k: nat,
) -> Seq<Seq<char>>
    decreases k,
{
    if k == 0 {
        Seq::empty()
    } else {
        overlay_urls_upto(year, path, hash, refinement, (k - 1) as nat) + overlay_locale_urls(
            year,
            path,
            hash,
            refinement,
            locales()[k - 1],
            13,
        )
    }
}

/// Every overlay URL of a calendar of `year`: for each locale in order, for
/// each month `0..=12` that the locale has, its image or its pair of images.
pub open spec fn overlay_urls(year: u32, path: Seq<char>, hash: Seq<char>, refinement: bool) -> Seq<
    Seq<char>,
> {
    overlay_urls_upto(year, path, hash, refinement, 6)
}

/// The overlay URL prefix, built from its parts.
fn overlay_prefix_exec(
    year_text: &str,
    path: &str,
    hash: &str,
    month_text: &str,
    locale: &str,
) -> (p: String)
    ensures
        p@ == "https://mp-prod-de-calendar-data.s3.eu-central-1.amazonaws.com"@ + path@ + "/"@
            + hash@ + "_"@ + year_text@ + "_"@ + month_text@ + "_"@ + locale@,
{
    let mut p = String::from_str("https://mp-prod-de-calendar-data.s3.eu-central-1.amazonaws.com");
    p.append(path);
    p.append("/");
    p.append(hash);
    p.append("_");
    p.append(year_text);
    p.append("_");
    p.append(month_text);
    p.append("_");
    p.append(locale);
    p
}

/// The overlay URLs of the calendar with data under `path` and `hash` for
/// `year`: for each locale, for each month from 0 to 12 (only month 1 for
/// `de-AT`), the base and mask images of a refinement, or else the plain
/// image.
pub fn build_urls(year: u32, path: String, hash: String, refinement: bool) -> (urls: Vec<String>)
    ensures
        views(urls@) == overlay_urls(year, path@, hash@, refinement),
{
    let mut urls = Vec::new();
    let year_text = u32_decimal(year);
    for k in 0..6usize
        invariant
            year_text@ == decimal(year as nat),
            views(urls@) == overlay_urls_upto(year, path@, hash@, refinement, k as nat),
    {
        let locale = locale_at(k);
        let austrian = same_text(locale, "de-AT");
        let ghost before = views(urls@);
        for month in 0..13u32
            invariant
                k < 6,
                year_text@ == decimal(year as nat),
                locale@ == locales()[k as int],
                austrian == (locale@ == "de-AT"@),
                before == overlay_urls_upto(year, path@, hash@, refinement, k as nat),
                views(urls@) == before + overlay_locale_urls(
                    year,
                    path@,
                    hash@,
                    refinement,
                    locale@,
                    month as nat,
                ),
        {
            let ghost prev = views(urls@);
            if austrian && month != 1 {
                assert(overlay_month_urls(year, path@, hash@, refinement, locale@, month as nat)
                    =~= Seq::empty());
            } else {
                let month_text = u32_decimal(month);
                let prefix = overlay_prefix_exec(
                    year_text.as_str(),
                    path.as_str(),
                    hash.as_str(),
                    month_text.as_str(),
                    locale,
                );
                let ghost p = overlay_prefix(year, path@, hash@, month as nat, locale@);
                assert(prefix@ == p);
                if refinement {
                    let base = prefix.clone().concat("_refBase.png");
                    let mask = prefix.concat("_refMask.png");
                    urls.push(base);
                    urls.push(mask);
                    assert(views(urls@) =~= prev + seq![p + "_refBase.png"@, p + "_refMask.png"@]);
                } else {
                    let plain = prefix.concat(".png");
                    urls.push(plain);
                    assert(views(urls@) =~= prev + seq![p + ".png"@]);
                }
            }
            assert(overlay_locale_urls(year, path@, hash@, refinement, locale@, (month + 1) as nat)
                == overlay_locale_urls(year, path@, hash@, refinement, locale@, month as nat)
                + overlay_month_urls(year, path@, hash@, refinement, locale@, month as nat));
            assert(views(urls@) =~= before + overlay_locale_urls(
                year,
                path@,
                hash@,
                refinement,
                locale@,
                (month + 1) as nat,
            ));
        }
        assert(overlay_urls_upto(year, path@, hash@, refinement, (k + 1) as nat)
            == overlay_urls_upto(year, path@, hash@, refinement, k as nat) + overlay_locale_urls(
            year,
            path@,
            hash@,
            refinement,
            locales()[k as int],
            13,
        ));
    }
    urls
}

/// How many months of `0..n` locale `locale` has images for.
pub open spec fn month_count(locale: Seq<char>, n: nat) -> nat {
    if locale == "de-AT"@ {
        if n > 1 {
            1
        } else {
            0
        }
    } else {
        n
    }
}

proof fn lemma_locale_len(
    year: u32,
    path: Seq<char>,
    hash: Seq<char>,
    refinement: bool,
    locale: Seq<char>,
    n: nat,
)
    requires
        n <= 13,
    ensures
        refinement ==> overlay_locale_urls(year, path, hash, refinement, locale, n).len() == 2
            * month_count(locale, n),
        !refinement ==> overlay_locale_urls(year, path, hash, refinement, locale, n).len()
            == month_count(locale, n),
    decreases n,
{
    if n > 0 {
        lemma_locale_len(year, path, hash, refinement, locale, (n - 1) as nat);
    }
}

proof fn lemma_upto_len(year: u32, path: Seq<char>, hash: Seq<char>, refinement: bool, k: nat)
    requires
        k <= 6,
    ensures
        overlay_urls_upto(year, path, hash, refinement, k).len() == (if refinement {
            2int
        } else {
            1int
        }) * (if k <= 3 {
            13 * k as int
        } else {
            13 * k - 12
        }),
    decreases k,
{
    reveal_strlit("de-DE");
    reveal_strlit("fr-FR");
    reveal_strlit("nl-NL");
    reveal_strlit("de-AT");
    reveal_strlit("es-ES");
    reveal_strlit("it-IT");
    if k > 0 {
        lemma_upto_len(year, path, hash, refinement, (k - 1) as nat);
        let locale = locales()[k - 1];
        lemma_locale_len(year, path, hash, refinement, locale, 13);
        if k - 1 == 3 {
            assert(locale == "de-AT"@);
        } else {
            assert(locale[3] != "de-AT"@[3]);
            assert(locale != "de-AT"@);
        }
    }
}

/// The overlay list of a year has 66 images: 13 months for each of five
/// locales and one month for `de-AT`; with refinement it has twice as many,
/// a base and a mask for each.
pub proof fn lemma_overlay_url_count(year: u32, path: Seq<char>, hash: Seq<char>, refinement: bool)
    ensures
        overlay_urls(year, path, hash, refinement).len() == if refinement {
            132int
        } else {
            66int
        },
{
    lemma_upto_len(year, path, hash, refinement, 6);
}

/// `url` without its last four characters (the `.png` of a plain image).
pub open spec fn png_stem(url: Seq<char>) -> Seq<char> {
    url.subrange(0, url.len() - 4)
}

/// `refined` holds, for each plain image of `plain` in turn, the base and
/// the mask image of the same stem.
pub open spec fn refines(refined: Seq<Seq<char>>, plain: Seq<Seq<char>>) -> bool {
    &&& refined.len() == 2 * plain.len()
    &&& forall|k: int|
        0 <= k < plain.len() ==> {
            &&& #[trigger] plain[k] == png_stem(plain[k]) + ".png"@
            &&& refined[2 * k] == png_stem(plain[k]) + "_refBase.png"@
            &&& refined[2 * k + 1] == png_stem(plain[k]) + "_refMask.png"@
        }
}

proof fn lemma_refines_concat(
    r1: Seq<Seq<char>>,
    p1: Seq<Seq<char>>,
    r2: Seq<Seq<char>>,
    p2: Seq<Seq<char>>,
)
    requires
        refines(r1, p1),
        refines(r2, p2),
    ensures
        refines(r1 + r2, p1 + p2),
{
    let r = r1 + r2;
    let p = p1 + p2;
    assert forall|k: int| 0 <= k < p.len() implies {
        &&& #[trigger] p[k] == png_stem(p[k]) + ".png"@
        &&& r[2 * k] == png_stem(p[k]) + "_refBase.png"@
        &&& r[2 * k + 1] == png_stem(p[k]) + "_refMask.png"@
    } by {
        if k < p1.len() {
            assert(p[k] == p1[k]);
            assert(r[2 * k] == r1[2 * k]);
            assert(r[2 * k + 1] == r1[2 * k + 1]);
        } else {
            let k2 = k - p1.len();
            assert(p[k] == p2[k2]);
            assert(p2[k2] == png_stem(p2[k2]) + ".png"@);
            assert(r[2 * k] == r2[2 * k2]);
            assert(r[2 * k + 1] == r2[2 * k2 + 1]);
        }
    }
}

proof fn lemma_month_refines(
    year: u32,
    path: Seq<char>,
    hash: Seq<char>,
    locale: Seq<char>,
    month: nat,
)
    ensures
        refines(
            overlay_month_urls(year, path, hash, true, locale, month),
            overlay_month_urls(year, path, hash, false, locale, month),
        ),
{
    reveal_strlit(".png");
    let prefix = overlay_prefix(year, path, hash, month, locale);
    let plain = overlay_month_urls(year, path, hash, false, locale, month);
    if has_month(locale, month) {
        assert(png_stem(prefix + ".png"@) =~= prefix);
        assert(plain[0] == prefix + ".png"@);
    }
}

proof fn lemma_locale_refines(
    year: u32,
    path: Seq<char>,
    hash: Seq<char>,
    locale: Seq<char>,
    n: nat,
)
    ensures
        refines(
            overlay_locale_urls(year, path, hash, true, locale, n),
            overlay_locale_urls(year, path, hash, false, locale, n),
        ),
    decreases n,
{
    if n > 0 {
        lemma_locale_refines(year, path, hash, locale, (n - 1) as nat);
        lemma_month_refines(year, path, hash, locale, (n - 1) as nat);
        lemma_refines_concat(
            overlay_locale_urls(year, path, hash, true, locale, (n - 1) as nat),
            overlay_locale_urls(year, path, hash, false, locale, (n - 1) as nat),
            overlay_month_urls(year, path, hash, true, locale, (n - 1) as nat),
            overlay_month_urls(year, path, hash, false, locale, (n - 1) as nat),
        );
    }
}

proof fn lemma_upto_refines(year: u32, path: Seq<char>, hash: Seq<char>, k: nat)
    ensures
        refines(
            overlay_urls_upto(year, path, hash, true, k),
            overlay_urls_upto(year, path, hash, false, k),
        ),
    decreases k,
{
    if k > 0 {
        lemma_upto_refines(year, path, hash, (k - 1) as nat);
        lemma_locale_refines(year, path, hash, locales()[k - 1], 13);
        lemma_refines_concat(
            overlay_urls_upto(year, path, hash, true, (k - 1) as nat),
            overlay_urls_upto(year, path, hash, false, (k - 1) as nat),
            overlay_locale_urls(year, path, hash, true, locales()[k - 1], 13),
            overlay_locale_urls(year, path, hash, false, locales()[k - 1], 13),
        );
    }
}

/// With refinement, the overlay list of a calendar replaces each plain
/// `.png` image of the list without refinement, in place, by the
/// `_refBase.png` and the `_refMask.png` image of the same stem.
pub proof fn lemma_refinement_pairs(year: u32, path: Seq<char>, hash: Seq<char>)
    ensures
        refines(overlay_urls(year, path, hash, true), overlay_urls(year, path, hash, false)),
{
    lemma_upto_refines(year, path, hash, 6);
}

/// The ends of the overlay URLs: `.png`, or with refinement `_refBase.png`
/// and `_refMask.png`.
pub open spec fn tail_ok(refinement: bool, t: Seq<char>) -> bool {
    if refinement {
        t == "_refBase.png"@ || t == "_refMask.png"@
    } else {
        t == ".png"@
    }
}

/// Two joined pairs with left parts of equal length split alike.
proof fn lemma_split_left(x1: Seq<char>, y1: Seq<char>, x2: Seq<char>, y2: Seq<char>)
    requires
        x1 + y1 == x2 + y2,
        x1.len() == x2.len(),
    ensures
        x1 == x2,
        y1 == y2,
{
    let z1 = x1 + y1;
    let z2 = x2 + y2;
    assert(x1 =~= z1.subrange(0, x1.len() as int));
    assert(x2 =~= z2.subrange(0, x2.len() as int));
    assert(y1 =~= z1.subrange(x1.len() as int, z1.len() as int));
    assert(y2 =~= z2.subrange(x2.len() as int, z2.len() as int));
}

/// An overlay URL gives back its month, locale and end.
proof fn lemma_overlay_key(
    year: u32,
    path: Seq<char>,
    hash: Seq<char>,
    refinement: bool,
    m1: nat,
    loc1: Seq<char>,
    t1: Seq<char>,
    m2: nat,
    loc2: Seq<char>,
    t2: Seq<char>,
)
    requires
        loc1.len() == 5,
        loc2.len() == 5,
        tail_ok(refinement, t1),
        tail_ok(refinement, t2),
        overlay_prefix(year, path, hash, m1, loc1) + t1 == overlay_prefix(year, path, hash, m2, loc2)
            + t2,
    ensures
        m1 == m2,
        loc1 == loc2,
        t1 == t2,
{
    reveal_strlit(".png");
    reveal_strlit("_refBase.png");
    reveal_strlit("_refMask.png");
    let q = "https://mp-prod-de-calendar-data.s3.eu-central-1.amazonaws.com"@ + path + "/"@ + hash
        + "_"@ + decimal(year as nat) + "_"@;
    let (d1, d2) = (decimal(m1), decimal(m2));
    assert(overlay_prefix(year, path, hash, m1, loc1) =~= q + d1 + "_"@ + loc1);
    assert(overlay_prefix(year, path, hash, m2, loc2) =~= q + d2 + "_"@ + loc2);
    lemma_split_right(q + d1 + "_"@ + loc1, t1, q + d2 + "_"@ + loc2, t2);
    lemma_split_right(q + d1 + "_"@, loc1, q + d2 + "_"@, loc2);
    lemma_split_right(q + d1, "_"@, q + d2, "_"@);
    lemma_split_left(q, d1, q, d2);
    lemma_decimal_injective(m1, m2);
}

proof fn lemma_no_repeats_concat(a: Seq<Seq<char>>, b: Seq<Seq<char>>)
    requires
        no_repeats(a),
        no_repeats(b),
        forall|i: int, j: int| 0 <= i < a.len() && 0 <= j < b.len() ==> a[i] != b[j],
    ensures
        no_repeats(a + b),
{
    let c = a + b;
    assert forall|i: int, j: int| 0 <= i < j < c.len() implies c[i] != c[j] by {
        if j < a.len() {
            assert(c[i] == a[i] && c[j] == a[j]);
        } else if i >= a.len() {
            assert(c[i] == b[i - a.len()] && c[j] == b[j - a.len()]);
        } else {
            assert(c[i] == a[i] && c[j] == b[j - a.len()]);
        }
    }
}

proof fn lemma_month_distinct(
    year: u32,
    path: Seq<char>,
    hash: Seq<char>,
    refinement: bool,
    locale: Seq<char>,
    month: nat,
)
    requires
        locale.len() == 5,
    ensures
        no_repeats(overlay_month_urls(year, path, hash, refinement, locale, month)),
        forall|q: int, m2: nat, loc2: Seq<char>, t2: Seq<char>|
            #![trigger overlay_month_urls(year, path, hash, refinement, locale, month)[q], overlay_prefix(year, path, hash, m2, loc2), tail_ok(refinement, t2)]
            0 <= q < overlay_month_urls(year, path, hash, refinement, locale, month).len()
                && loc2.len() == 5 && tail_ok(refinement, t2) && (m2 != month || loc2 != locale)
                ==> overlay_month_urls(year, path, hash, refinement, locale, month)[q]
                != overlay_prefix(year, path, hash, m2, loc2) + t2,
{
    reveal_strlit("_refBase.png");
    reveal_strlit("_refMask.png");
    reveal_strlit(".png");
    let p = overlay_prefix(year, path, hash, month, locale);
    let urls = overlay_month_urls(year, path, hash, refinement, locale, month);
    if has_month(locale, month) && refinement {
        assert((p + "_refBase.png"@)[p.len() + 4int] != (p + "_refMask.png"@)[p.len() + 4int]);
    }
    assert forall|q: int, m2: nat, loc2: Seq<char>, t2: Seq<char>|
        #![trigger urls[q], overlay_prefix(year, path, hash, m2, loc2), tail_ok(refinement, t2)]
        0 <= q < urls.len() && loc2.len() == 5 && tail_ok(refinement, t2) && (m2 != month || loc2
            != locale) implies urls[q] != overlay_prefix(year, path, hash, m2, loc2)
        + t2 by {
        let t = if refinement {
            if q == 0 {
                "_refBase.png"@
            } else {
                "_refMask.png"@
            }
        } else {
            ".png"@
        };
        assert(urls[q] == p + t);
        assert(tail_ok(refinement, t));
        if urls[q] == overlay_prefix(year, path, hash, m2, loc2) + t2 {
            lemma_overlay_key(year, path, hash, refinement, month, locale, t, m2, loc2, t2);
        }
    }
}

proof fn lemma_locale_distinct(
    year: u32,
    path: Seq<char>,
    hash: Seq<char>,
    refinement: bool,
    locale: Seq<char>,
    n: nat,
)
    requires
        locale.len() == 5,
    ensures
        no_repeats(overlay_locale_urls(year, path, hash, refinement, locale, n)),
        forall|q: int, m2: nat, loc2: Seq<char>, t2: Seq<char>|
            #![trigger overlay_locale_urls(year, path, hash, refinement, locale, n)[q], overlay_prefix(year, path, hash, m2, loc2), tail_ok(refinement, t2)]
            0 <= q < overlay_locale_urls(year, path, hash, refinement, locale, n).len()
                && loc2.len() == 5 && tail_ok(refinement, t2) && (m2 >= n || loc2 != locale)
                ==> overlay_locale_urls(year, path, hash, refinement, locale, n)[q]
                != overlay_prefix(year, path, hash, m2, loc2) + t2,
    decreases n,
{
    if n > 0 {
        let k = (n - 1) as nat;
        let prev = overlay_locale_urls(year, path, hash, refinement, locale, k);
        let last = overlay_month_urls(year, path, hash, refinement, locale, k);
        let all = overlay_locale_urls(year, path, hash, refinement, locale, n);
        lemma_locale_distinct(year, path, hash, refinement, locale, k);
        lemma_month_distinct(year, path, hash, refinement, locale, k);
        assert(all == prev + last);
        assert forall|i: int, j: int| 0 <= i < prev.len() && 0 <= j < last.len() implies prev[i]
            != last[j] by {
            reveal_strlit("_refBase.png");
            reveal_strlit("_refMask.png");
            reveal_strlit(".png");
            let t = if refinement {
                if j == 0 {
                    "_refBase.png"@
                } else {
                    "_refMask.png"@
                }
            } else {
                ".png"@
            };
            assert(last[j] == overlay_prefix(year, path, hash, k, locale) + t);
            assert(tail_ok(refinement, t));
            assert(prev[i] != overlay_prefix(year, path, hash, k, locale) + t);
        }
        lemma_no_repeats_concat(prev, last);
        assert forall|q: int, m2: nat, loc2: Seq<char>, t2: Seq<char>|
            #![trigger all[q], overlay_prefix(year, path, hash, m2, loc2), tail_ok(refinement, t2)]
            0 <= q < all.len() && loc2.len() == 5 && tail_ok(refinement, t2) && (m2 >= n || loc2
                != locale) implies all[q] != overlay_prefix(year, path, hash, m2, loc2)
            + t2 by {
            if q < prev.len() {
                assert(all[q] == prev[q]);
                assert(prev[q] != overlay_prefix(year, path, hash, m2, loc2) + t2);
            } else {
                assert(all[q] == last[q - prev.len()]);
                assert(last[q - prev.len()] != overlay_prefix(year, path, hash, m2, loc2) + t2);
            }
        }
    }
}

proof fn lemma_upto_distinct(year: u32, path: Seq<char>, hash: Seq<char>, refinement: bool, k: nat)
    requires
        k <= 6,
    ensures
        no_repeats(overlay_urls_upto(year, path, hash, refinement, k)),
        forall|q: int, m2: nat, i2: int, t2: Seq<char>|
            #![trigger overlay_urls_upto(year, path, hash, refinement, k)[q], overlay_prefix(year, path, hash, m2, locales()[i2]), tail_ok(refinement, t2)]
            0 <= q < overlay_urls_upto(year, path, hash, refinement, k).len() && k <= i2 < 6
                && tail_ok(refinement, t2) ==> overlay_urls_upto(year, path, hash, refinement, k)[q]
                != overlay_prefix(year, path, hash, m2, locales()[i2]) + t2,
    decreases k,
{
    lemma_parts_distinct();
    if k > 0 {
        let j = (k - 1) as nat;
        let loc = locales()[j as int];
        let prev = overlay_urls_upto(year, path, hash, refinement, j);
        let last = overlay_locale_urls(year, path, hash, refinement, loc, 13);
        let all = overlay_urls_upto(year, path, hash, refinement, k);
        lemma_upto_distinct(year, path, hash, refinement, j);
        lemma_locale_distinct(year, path, hash, refinement, loc, 13);
        assert(all == prev + last);
        assert forall|a: int, b: int| 0 <= a < prev.len() && 0 <= b < last.len() implies prev[a]
            != last[b] by {
            if prev[a] == last[b] {
                // prev[a] is not of locale `loc`, every entry of `last` is.
                let x = prev[a];
                assert(forall|m2: nat, t2: Seq<char>|
                    #![trigger overlay_prefix(year, path, hash, m2, loc), tail_ok(refinement, t2)]
                    tail_ok(refinement, t2) ==> x != overlay_prefix(year, path, hash, m2, loc)
                        + t2);
                lemma_locale_entry(year, path, hash, refinement, loc, 13, b);
            }
        }
        lemma_no_repeats_concat(prev, last);
        assert forall|q: int, m2: nat, i2: int, t2: Seq<char>|
            #![trigger all[q], overlay_prefix(year, path, hash, m2, locales()[i2]), tail_ok(refinement, t2)]
            0 <= q < all.len() && k <= i2 < 6 && tail_ok(refinement, t2) implies all[q]
            != overlay_prefix(year, path, hash, m2, locales()[i2]) + t2 by {
            if q < prev.len() {
                assert(all[q] == prev[q]);
                assert(prev[q] != overlay_prefix(year, path, hash, m2, locales()[i2]) + t2);
            } else {
                assert(all[q] == last[q - prev.len()]);
                assert(locales()[i2] != loc);
                assert(locales()[i2].len() == 5);
                assert(last[q - prev.len()] != overlay_prefix(year, path, hash, m2, locales()[i2])
                    + t2);
            }
        }
    }
}

/// Every entry of a locale's list is a URL of that locale.
proof fn lemma_locale_entry(
    year: u32,
    path: Seq<char>,
    hash: Seq<char>,
    refinement: bool,
    locale: Seq<char>,
    n: nat,
    q: int,
)
    requires
        0 <= q < overlay_locale_urls(year, path, hash, refinement, locale, n).len(),
    ensures
        exists|m: nat, t: Seq<char>|
            #![trigger overlay_prefix(year, path, hash, m, locale), tail_ok(refinement, t)]
            m < n && tail_ok(refinement, t) && overlay_locale_urls(
                year,
                path,
                hash,
                refinement,
                locale,
                n,
            )[q] == overlay_prefix(year, path, hash, m, locale) + t,
    decreases n,
{
    reveal_strlit("_refBase.png");
    reveal_strlit("_refMask.png");
    reveal_strlit(".png");
    let k = (n - 1) as nat;
    let prev = overlay_locale_urls(year, path, hash, refinement, locale, k);
    let last = overlay_month_urls(year, path, hash, refinement, locale, k);
    let all = overlay_locale_urls(year, path, hash, refinement, locale, n);
    assert(all == prev + last);
    if q < prev.len() {
        assert(all[q] == prev[q]);
        lemma_locale_entry(year, path, hash, refinement, locale, k, q);
    } else {
        let b = q - prev.len();
        assert(all[q] == last[b]);
        let t = if refinement {
            if b == 0 {
                "_refBase.png"@
            } else {
                "_refMask.png"@
            }
        } else {
            ".png"@
        };
        assert(last[b] == overlay_prefix(year, path, hash, k, locale) + t);
        assert(tail_ok(refinement, t));
    }
}

/// A calendar's overlay list names each image once: no two entries are the
/// same URL, whatever the year, path and hash.
pub proof fn lemma_overlay_urls_distinct(year: u32, path: Seq<char>, hash: Seq<char>, refinement: bool)
    ensures
        no_repeats(overlay_urls(year, path, hash, refinement)),
{
    lemma_upto_distinct(year, path, hash, refinement, 6);
}

/// Every entry of the first `k` locales' list is a URL of one of them.
proof fn lemma_upto_entry(year: u32, path: Seq<char>, hash: Seq<char>, refinement: bool, k: nat, q: int)
    requires
        k <= 6,
        0 <= q < overlay_urls_upto(year, path, hash, refinement, k).len(),
    ensures
        exists|i: int, m: nat, t: Seq<char>|
            #![trigger overlay_prefix(year, path, hash, m, locales()[i]), tail_ok(refinement, t)]
            0 <= i < k && m < 13 && tail_ok(refinement, t) && overlay_urls_upto(
                year,
                path,
                hash,
                refinement,
                k,
            )[q] == overlay_prefix(year, path, hash, m, locales()[i]) + t,
    decreases k,
{
    let j = (k - 1) as nat;
    let loc = locales()[j as int];
    let prev = overlay_urls_upto(year, path, hash, refinement, j);
    let last = overlay_locale_urls(year, path, hash, refinement, loc, 13);
    let all = overlay_urls_upto(year, path, hash, refinement, k);
    assert(all == prev + last);
    if q < prev.len() {
        assert(all[q] == prev[q]);
        lemma_upto_entry(year, path, hash, refinement, j, q);
    } else {
        let b = q - prev.len();
        assert(all[q] == last[b]);
        lemma_locale_entry(year, path, hash, refinement, loc, 13, b);
        let (m, t) = choose|m: nat, t: Seq<char>|
            #![trigger overlay_prefix(year, path, hash, m, loc), tail_ok(refinement, t)]
            m < 13 && tail_ok(refinement, t) && last[b] == overlay_prefix(year, path, hash, m, loc)
                + t;
        assert(overlay_prefix(year, path, hash, m, locales()[j as int]) == overlay_prefix(
            year,
            path,
            hash,
            m,
            loc,
        ));
        assert(tail_ok(refinement, t));
    }
}

/// `x` is the data host, then `path`, a slash, `hash` (whole), and
/// `_year_month_locale` with the year and a month from 0 to 12 in decimal and
/// one of the six locales, then one of the ends of `tail_ok`.
pub open spec fn is_overlay_url(
    year: u32,
    path: Seq<char>,
    hash: Seq<char>,
    refinement: bool,
    x: Seq<char>,
) -> bool {
    exists|m: nat, i: int, t: Seq<char>|
        #![trigger decimal(m), locales()[i], tail_ok(refinement, t)]
        m <= 12 && 0 <= i < 6 && tail_ok(refinement, t) && x
            == "https://mp-prod-de-calendar-data.s3.eu-central-1.amazonaws.com"@ + path + "/"@ + hash
            + "_"@ + decimal(year as nat) + "_"@ + decimal(m) + "_"@ + locales()[i] + t
}

/// Every overlay URL of a calendar is the data host, then the path passed in,
/// a slash, the hash passed in (whole), and `_year_month_locale` with the
/// year and a month from 0 to 12 in decimal and one of the six locales, then
/// `.png`, or with refinement `_refBase.png` or `_refMask.png`.
pub proof fn lemma_overlay_url_form(year: u32, path: Seq<char>, hash: Seq<char>, refinement: bool)
    ensures
        forall|q: int|
            0 <= q < overlay_urls(year, path, hash, refinement).len() ==> is_overlay_url(
                year,
                path,
                hash,
                refinement,
                #[trigger] overlay_urls(year, path, hash, refinement)[q],
            ),
{
    let urls = overlay_urls(year, path, hash, refinement);
    assert forall|q: int| 0 <= q < urls.len() implies is_overlay_url(
        year,
        path,
        hash,
        refinement,
        #[trigger] urls[q],
    ) by {
        lemma_upto_entry(year, path, hash, refinement, 6, q);
        let (i, m, t) = choose|i: int, m: nat, t: Seq<char>|
            #![trigger overlay_prefix(year, path, hash, m, locales()[i]), tail_ok(refinement, t)]
            0 <= i < 6 && m < 13 && tail_ok(refinement, t) && urls[q] == overlay_prefix(
                year,
                path,
                hash,
                m,
                locales()[i],
            ) + t;
        assert(urls[q] =~= "https://mp-prod-de-calendar-data.s3.eu-central-1.amazonaws.com"@ + path
            + "/"@ + hash + "_"@ + decimal(year as nat) + "_"@ + decimal(m) + "_"@ + locales()[i]
            + t);
        assert(decimal(m) == decimal(m) && locales()[i] == locales()[i]);
    }
}

proof fn lemma_locale_first(
    year: u32,
    path: Seq<char>,
    hash: Seq<char>,
    refinement: bool,
    locale: Seq<char>,
    n: nat,
)
    requires
        1 <= n <= 13,
        locale != "de-AT"@,
    ensures
        overlay_locale_urls(year, path, hash, refinement, locale, n).len() >= 1,
        overlay_locale_urls(year, path, hash, refinement, locale, n)[0] == overlay_month_urls(
            year,
            path,
            hash,
            refinement,
            locale,
            0,
        )[0],
        refinement ==> overlay_locale_urls(year, path, hash, refinement, locale, n)[1]
            == overlay_month_urls(year, path, hash, refinement, locale, 0)[1],
    decreases n,
{
    lemma_locale_len(year, path, hash, refinement, locale, n);
    if n > 1 {
        lemma_locale_first(year, path, hash, refinement, locale, (n - 1) as nat);
        lemma_locale_len(year, path, hash, refinement, locale, (n - 1) as nat);
    } else {
        assert(overlay_locale_urls(year, path, hash, refinement, locale, 1) =~= overlay_month_urls(
            year,
            path,
            hash,
            refinement,
            locale,
            0,
        ));
    }
}

proof fn lemma_upto_first(year: u32, path: Seq<char>, hash: Seq<char>, refinement: bool, k: nat)
    requires
        1 <= k <= 6,
    ensures
        overlay_urls_upto(year, path, hash, refinement, k)[0] == overlay_month_urls(
            year,
            path,
            hash,
            refinement,
            locales()[0],
            0,
        )[0],
        refinement ==> overlay_urls_upto(year, path, hash, refinement, k)[1] == overlay_month_urls(
            year,
            path,
            hash,
            refinement,
            locales()[0],
            0,
        )[1],
    decreases k,
{
    reveal_strlit("de-DE");
    reveal_strlit("de-AT");
    assert(locales()[0][3] != "de-AT"@[3]);
    lemma_locale_first(year, path, hash, refinement, locales()[0], 13);
    lemma_upto_len(year, path, hash, refinement, 1);
    if k > 1 {
        lemma_upto_first(year, path, hash, refinement, (k - 1) as nat);
        lemma_upto_len(year, path, hash, refinement, (k - 1) as nat);
    } else {
        assert(overlay_urls_upto(year, path, hash, refinement, 0) =~= Seq::<Seq<char>>::empty());
        assert(overlay_urls_upto(year, path, hash, refinement, 1) =~= overlay_locale_urls(
            year,
            path,
            hash,
            refinement,
            locales()[0],
            13,
        ));
    }
}

/// The overlay list of a calendar starts with month 0 of `de-DE`, the hash
/// written whole: the plain image, or with refinement its base and then its
/// mask image.
pub proof fn lemma_overlay_first_urls(year: u32, path: Seq<char>, hash: Seq<char>)
    ensures
        overlay_urls(year, path, hash, false)[0]
            == "https://mp-prod-de-calendar-data.s3.eu-central-1.amazonaws.com"@ + path + "/"@ + hash
            + "_"@ + decimal(year as nat) + "_0_de-DE.png"@,
        overlay_urls(year, path, hash, true)[0]
            == "https://mp-prod-de-calendar-data.s3.eu-central-1.amazonaws.com"@ + path + "/"@ + hash
            + "_"@ + decimal(year as nat) + "_0_de-DE_refBase.png"@,
        overlay_urls(year, path, hash, true)[1]
            == "https://mp-prod-de-calendar-data.s3.eu-central-1.amazonaws.com"@ + path + "/"@ + hash
            + "_"@ + decimal(year as nat) + "_0_de-DE_refMask.png"@,
{
    reveal_strlit("_");
    reveal_strlit("de-DE");
    reveal_strlit("de-AT");
    reveal_strlit(".png");
    reveal_strlit("_refBase.png");
    reveal_strlit("_refMask.png");
    reveal_strlit("_0_de-DE.png");
    reveal_strlit("_0_de-DE_refBase.png");
    reveal_strlit("_0_de-DE_refMask.png");
    lemma_upto_first(year, path, hash, false, 6);
    lemma_upto_first(year, path, hash, true, 6);
    let q = "https://mp-prod-de-calendar-data.s3.eu-central-1.amazonaws.com"@ + path + "/"@ + hash
        + "_"@ + decimal(year as nat);
    let p = overlay_prefix(year, path, hash, 0, locales()[0]);
    assert(decimal(0) == seq!['0']);
    assert(has_month(locales()[0], 0)) by {
        assert(locales()[0][3] != "de-AT"@[3]);
    }
    assert(p + ".png"@ =~= q + "_0_de-DE.png"@);
    assert(p + "_refBase.png"@ =~= q + "_0_de-DE_refBase.png"@);
    assert(p + "_refMask.png"@ =~= q + "_0_de-DE_refMask.png"@);
}

} // verus!
