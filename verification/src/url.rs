//! The preview images of a calendar design: one URL for each size, locale and
//! foreground.

use vstd::prelude::*;
use crate::text::{decimal, lemma_decimal_injective, u32_decimal};

verus! {

/// The image widths that are rendered for each design.
pub open spec fn sizes() -> Seq<u32> {
    seq![500u32, 1080u32, 1242u32, 1440u32, 2048u32, 2560u32]
}

/// The locales in which each design is rendered.
pub open spec fn locales() -> Seq<Seq<char>> {
    seq!["de-DE"@, "fr-FR"@, "nl-NL"@, "de-AT"@, "es-ES"@, "it-IT"@]
}

/// The foregrounds that are rendered for each design.
pub open spec fn foregrounds() -> Seq<Seq<char>> {
    seq!["cover"@, "month"@]
}

/// The `i`-th image width.
pub fn size_at(i: usize) -> (s: u32)
    requires
        i < 6,
    ensures
        s == sizes()[i as int],
{
    match i {
        0 => 500,
        1 => 1080,
        2 => 1242,
        3 => 1440,
        4 => 2048,
        _ => 2560,
    }
}

/// The `i`-th locale.
pub fn locale_at(i: usize) -> (s: &'static str)
    requires
        i < 6,
    ensures
        s@ == locales()[i as int],
{
    match i {
        0 => "de-DE",
        1 => "fr-FR",
        2 => "nl-NL",
        3 => "de-AT",
        4 => "es-ES",
        _ => "it-IT",
    }
}

/// The `i`-th foreground.
pub fn foreground_at(i: usize) -> (s: &'static str)
    requires
        i < 2,
    ensures
        s@ == foregrounds()[i as int],
{
    match i {
        0 => "cover",
        _ => "month",
    }
}

/// The preview URL of design `id` in mounting type `mounting`, for one size,
/// locale and foreground; a refinement image carries `_ref` before its size.
pub open spec fn preview_url(
    id: u32,
    mounting: Seq<char>,
    refinement: bool,
    size: u32,
    locale: Seq<char>,
    foreground: Seq<char>,
) -> Seq<char> {
    "https://mp-prod-de-preview-service.s3.eu-central-1.amazonaws.com/resources/calendar-designs/"@
        + decimal(id as nat) + "/"@ + locale + "/mt-"@ + mounting + "_cv-"@ + foreground
        + (if refinement { "-foreground_ref_"@ } else { "-foreground_"@ })
        + decimal(size as nat) + ".webp"@
}

/// All preview URLs of a design: sizes outermost, then locales, then
/// foregrounds, so that entry `j` has size `j / 12`, locale `(j % 12) / 2`
/// and foreground `j % 2`.
pub open spec fn preview_urls(id: u32, mounting: Seq<char>, refinement: bool) -> Seq<Seq<char>> {
    Seq::new(
        72,
        |j: int|
            preview_url(
                id,
                mounting,
                refinement,
                sizes()[j / 12],
                locales()[(j % 12) / 2],
                foregrounds()[j % 2],
            ),
    )
}

/// The views of a list of strings.
pub open spec fn views(v: Seq<String>) -> Seq<Seq<char>> {
    v.map_values(|s: String| s@)
}

proof fn lemma_preview_index(s: int, l: int, f: int)
    requires
        0 <= s,
        0 <= l < 6,
        0 <= f < 2,
    ensures
        (s * 12 + l * 2 + f) / 12 == s,
        ((s * 12 + l * 2 + f) % 12) / 2 == l,
        (s * 12 + l * 2 + f) % 2 == f,
{
    assert((s * 12 + l * 2 + f) / 12 == s) by (nonlinear_arith)
        requires 0 <= s, 0 <= l < 6, 0 <= f < 2;
    assert((s * 12 + l * 2 + f) % 12 == l * 2 + f) by (nonlinear_arith)
        requires 0 <= s, 0 <= l < 6, 0 <= f < 2;
    assert((s * 12 + l * 2 + f) % 2 == f) by (nonlinear_arith)
        requires 0 <= s, 0 <= l < 6, 0 <= f < 2;
}

/// One preview URL, built from its parts.
fn preview_url_exec(
    id_text: &str,
    mounting: &String,
    refinement: bool,
    size: u32,
    locale: &str,
    foreground: &str,
) -> (url: String)
    ensures
        url@ == "https://mp-prod-de-preview-service.s3.eu-central-1.amazonaws.com/resources/calendar-designs/"@
            + id_text@ + "/"@ + locale@ + "/mt-"@ + mounting@ + "_cv-"@ + foreground@
            + (if refinement { "-foreground_ref_"@ } else { "-foreground_"@ })
            + decimal(size as nat) + ".webp"@,
{
    let mut url = String::from_str(
        "https://mp-prod-de-preview-service.s3.eu-central-1.amazonaws.com/resources/calendar-designs/",
    );
    url.append(id_text);
    url.append("/");
    url.append(locale);
    url.append("/mt-");
    url.append(mounting.as_str());
    url.append("_cv-");
    url.append(foreground);
    if refinement {
        url.append("-foreground_ref_");
    } else {
        url.append("-foreground_");
    }
    let size_text = u32_decimal(size);
    url.append(size_text.as_str());
    url.append(".webp");
    url
}

/// The URLs of every preview image of design `id` in mounting type
/// `mounting`: one for each size, locale and foreground, in that nesting.
pub fn build_urls(id: u32, mounting: &String, refinement: bool) -> (urls: Vec<String>)
    ensures
        views(urls@) == preview_urls(id, mounting@, refinement),
        urls@.len() == 72,
{
    let mut urls = Vec::<String>::new();
    let id_text = u32_decimal(id);
    for s in 0..6usize
        invariant
            id_text@ == decimal(id as nat),
            urls@.len() == s * 12,
            forall|j: int|
                0 <= j < urls@.len() ==> #[trigger] urls@[j]@ == preview_urls(
                    id,
                    mounting@,
                    refinement,
                )[j],
    {
        for l in 0..6usize
            invariant
                s < 6,
                id_text@ == decimal(id as nat),
                urls@.len() == s * 12 + l * 2,
                forall|j: int|
                    0 <= j < urls@.len() ==> #[trigger] urls@[j]@ == preview_urls(
                        id,
                        mounting@,
                        refinement,
                    )[j],
        {
            for f in 0..2usize
                invariant
                    s < 6,
                    l < 6,
                    id_text@ == decimal(id as nat),
                    urls@.len() == s * 12 + l * 2 + f,
                    forall|j: int|
                        0 <= j < urls@.len() ==> #[trigger] urls@[j]@ == preview_urls(
                            id,
                            mounting@,
                            refinement,
                        )[j],
            {
                let size = size_at(s);
                let locale = locale_at(l);
                let foreground = foreground_at(f);
                let url = preview_url_exec(
                    id_text.as_str(),
                    mounting,
                    refinement,
                    size,
                    locale,
                    foreground,
                );
                proof {
                    lemma_preview_index(s as int, l as int, f as int);
                    let j = (s * 12 + l * 2 + f) as int;
                    assert(url@ == preview_urls(id, mounting@, refinement)[j]);
                }
                urls.push(url);
            }
        }
    }
    assert(views(urls@) =~= preview_urls(id, mounting@, refinement));
    urls
}

/// No entry of `s` occurs twice.
pub open spec fn no_repeats(s: Seq<Seq<char>>) -> bool {
    forall|i: int, j: int| 0 <= i < j < s.len() ==> s[i] != s[j]
}

/// Two joined pairs with equal right parts of equal length split alike.
pub proof fn lemma_split_right(x1: Seq<char>, y1: Seq<char>, x2: Seq<char>, y2: Seq<char>)
    requires
        x1 + y1 == x2 + y2,
        y1.len() == y2.len(),
    ensures
        x1 == x2,
        y1 == y2,
{
    let z1 = x1 + y1;
    let z2 = x2 + y2;
    assert(x1 =~= z1.subrange(0, x1.len() as int));
    assert(x2 =~= z2.subrange(0, x2.len() as int));
    assert(y1 =~= z1.subrange(x1.len() as int, z1.len() as int));
    assert(y2 =~= z2.subrange(x2.len() as int, z2.len() as int));
}

/// The locales, sizes and foregrounds are each listed once, and every locale
/// and foreground has five characters.
pub proof fn lemma_parts_distinct()
    ensures
        forall|a: int, b: int|
            0 <= a < 6 && 0 <= b < 6 && locales()[a] == locales()[b] ==> a == b,
        forall|a: int, b: int| 0 <= a < 6 && 0 <= b < 6 && sizes()[a] == sizes()[b] ==> a == b,
        forall|a: int, b: int|
            0 <= a < 2 && 0 <= b < 2 && foregrounds()[a] == foregrounds()[b] ==> a == b,
        forall|a: int| 0 <= a < 6 ==> #[trigger] locales()[a].len() == 5,
        forall|a: int| 0 <= a < 2 ==> #[trigger] foregrounds()[a].len() == 5,
{
    reveal_strlit("de-DE");
    reveal_strlit("fr-FR");
    reveal_strlit("nl-NL");
    reveal_strlit("de-AT");
    reveal_strlit("es-ES");
    reveal_strlit("it-IT");
    reveal_strlit("cover");
    reveal_strlit("month");
    assert forall|a: int, b: int|
        0 <= a < 6 && 0 <= b < 6 && locales()[a] == locales()[b] implies a == b by {
        if a != b {
            assert(locales()[a][0] != locales()[b][0] || locales()[a][1] != locales()[b][1]
                || locales()[a][3] != locales()[b][3]);
        }
    }
    assert forall|a: int, b: int|
        0 <= a < 2 && 0 <= b < 2 && foregrounds()[a] == foregrounds()[b] implies a == b by {
        if a != b {
            assert(foregrounds()[a][0] != foregrounds()[b][0]);
        }
    }
}

proof fn lemma_preview_url_parts(
    id: u32,
    mounting: Seq<char>,
    refinement: bool,
    s1: int,
    l1: int,
    f1: int,
    s2: int,
    l2: int,
    f2: int,
)
    requires
        0 <= s1 < 6 && 0 <= l1 < 6 && 0 <= f1 < 2,
        0 <= s2 < 6 && 0 <= l2 < 6 && 0 <= f2 < 2,
        preview_url(id, mounting, refinement, sizes()[s1], locales()[l1], foregrounds()[f1])
            == preview_url(id, mounting, refinement, sizes()[s2], locales()[l2], foregrounds()[f2]),
    ensures
        s1 == s2 && l1 == l2 && f1 == f2,
{
    lemma_parts_distinct();
    let a = "https://mp-prod-de-preview-service.s3.eu-central-1.amazonaws.com/resources/calendar-designs/"@
        + decimal(id as nat) + "/"@;
    let b = "/mt-"@ + mounting + "_cv-"@;
    let c = if refinement { "-foreground_ref_"@ } else { "-foreground_"@ };
    let w = ".webp"@;
    let (lo1, lo2) = (locales()[l1], locales()[l2]);
    let (fg1, fg2) = (foregrounds()[f1], foregrounds()[f2]);
    let (d1, d2) = (decimal(sizes()[s1] as nat), decimal(sizes()[s2] as nat));
    let u1 = preview_url(id, mounting, refinement, sizes()[s1], lo1, fg1);
    let u2 = preview_url(id, mounting, refinement, sizes()[s2], lo2, fg2);
    assert(u1 =~= a + lo1 + b + fg1 + c + d1 + w);
    assert(u2 =~= a + lo2 + b + fg2 + c + d2 + w);
    lemma_split_right(a + lo1 + b + fg1 + c + d1, w, a + lo2 + b + fg2 + c + d2, w);
    assert(d1.len() == d2.len());
    lemma_split_right(a + lo1 + b + fg1 + c, d1, a + lo2 + b + fg2 + c, d2);
    lemma_split_right(a + lo1 + b + fg1, c, a + lo2 + b + fg2, c);
    lemma_split_right(a + lo1 + b, fg1, a + lo2 + b, fg2);
    lemma_split_right(a + lo1, b, a + lo2, b);
    lemma_split_right(a, lo1, a, lo2);
    lemma_decimal_injective(sizes()[s1] as nat, sizes()[s2] as nat);
}

/// A design's preview list names each image once: no two entries are the
/// same URL, whatever the id and mounting type.
pub proof fn lemma_preview_urls_distinct(id: u32, mounting: Seq<char>, refinement: bool)
    ensures
        no_repeats(preview_urls(id, mounting, refinement)),
{
    let urls = preview_urls(id, mounting, refinement);
    assert forall|i: int, j: int| 0 <= i < j < urls.len() implies urls[i] != urls[j] by {
        if urls[i] == urls[j] {
            lemma_preview_url_parts(
                id,
                mounting,
                refinement,
                i / 12,
                (i % 12) / 2,
                i % 2,
                j / 12,
                (j % 12) / 2,
                j % 2,
            );
            assert(i == (i / 12) * 12 + ((i % 12) / 2) * 2 + i % 2) by (nonlinear_arith)
                requires 0 <= i;
            assert(j == (j / 12) * 12 + ((j % 12) / 2) * 2 + j % 2) by (nonlinear_arith)
                requires 0 <= j;
        }
    }
}

/// Every preview URL of design `id` starts with the preview host, the
/// designs' folder, the decimal form of `id` itself and a slash; and the
/// lists of two designs differ only there: what follows that segment is the
/// same, entry by entry.
pub proof fn lemma_preview_id_segment(id1: u32, id2: u32, mounting: Seq<char>, refinement: bool)
    ensures
        forall|j: int|
            #![trigger preview_urls(id1, mounting, refinement)[j]]
            0 <= j < 72 ==> {
                let p1 = "https://mp-prod-de-preview-service.s3.eu-central-1.amazonaws.com/resources/calendar-designs/"@
                    + decimal(id1 as nat) + "/"@;
                let p2 = "https://mp-prod-de-preview-service.s3.eu-central-1.amazonaws.com/resources/calendar-designs/"@
                    + decimal(id2 as nat) + "/"@;
                let u1 = preview_urls(id1, mounting, refinement)[j];
                let u2 = preview_urls(id2, mounting, refinement)[j];
                &&& p1.len() <= u1.len()
                &&& u1.subrange(0, p1.len() as int) == p1
                &&& p2.len() <= u2.len()
                &&& u2.subrange(0, p2.len() as int) == p2
                &&& u1.subrange(p1.len() as int, u1.len() as int) == u2.subrange(
                    p2.len() as int,
                    u2.len() as int,
                )
            },
{
    assert forall|j: int|
        #![trigger preview_urls(id1, mounting, refinement)[j]]
        0 <= j < 72 implies {
            let p1 = "https://mp-prod-de-preview-service.s3.eu-central-1.amazonaws.com/resources/calendar-designs/"@
                + decimal(id1 as nat) + "/"@;
            let p2 = "https://mp-prod-de-preview-service.s3.eu-central-1.amazonaws.com/resources/calendar-designs/"@
                + decimal(id2 as nat) + "/"@;
            let u1 = preview_urls(id1, mounting, refinement)[j];
            let u2 = preview_urls(id2, mounting, refinement)[j];
            &&& p1.len() <= u1.len()
            &&& u1.subrange(0, p1.len() as int) == p1
            &&& p2.len() <= u2.len()
            &&& u2.subrange(0, p2.len() as int) == p2
            &&& u1.subrange(p1.len() as int, u1.len() as int) == u2.subrange(
                p2.len() as int,
                u2.len() as int,
            )
        } by {
        let p1 = "https://mp-prod-de-preview-service.s3.eu-central-1.amazonaws.com/resources/calendar-designs/"@
            + decimal(id1 as nat) + "/"@;
        let p2 = "https://mp-prod-de-preview-service.s3.eu-central-1.amazonaws.com/resources/calendar-designs/"@
            + decimal(id2 as nat) + "/"@;
        lemma_preview_split(id1, mounting, refinement, j);
        lemma_preview_split(id2, mounting, refinement, j);
        let rest = preview_rest(mounting, refinement, j);
        lemma_prefix_parts(p1, rest);
        lemma_prefix_parts(p2, rest);
    }
}

/// What follows the id segment of preview entry `j`.
spec fn preview_rest(mounting: Seq<char>, refinement: bool, j: int) -> Seq<char> {
    locales()[(j % 12) / 2] + "/mt-"@ + mounting + "_cv-"@ + foregrounds()[j % 2] + (if refinement {
        "-foreground_ref_"@
    } else {
        "-foreground_"@
    }) + decimal(sizes()[j / 12] as nat) + ".webp"@
}

proof fn lemma_preview_split(id: u32, mounting: Seq<char>, refinement: bool, j: int)
    requires
        0 <= j < 72,
    ensures
        preview_urls(id, mounting, refinement)[j]
            == "https://mp-prod-de-preview-service.s3.eu-central-1.amazonaws.com/resources/calendar-designs/"@
            + decimal(id as nat) + "/"@ + preview_rest(mounting, refinement, j),
{
    assert(preview_urls(id, mounting, refinement)[j]
        =~= "https://mp-prod-de-preview-service.s3.eu-central-1.amazonaws.com/resources/calendar-designs/"@
        + decimal(id as nat) + "/"@ + preview_rest(mounting, refinement, j));
}

proof fn lemma_prefix_parts(p: Seq<char>, r: Seq<char>)
    ensures
        (p + r).subrange(0, p.len() as int) == p,
        (p + r).subrange(p.len() as int, (p + r).len() as int) == r,
{
    assert((p + r).subrange(0, p.len() as int) =~= p);
    assert((p + r).subrange(p.len() as int, (p + r).len() as int) =~= r);
}

/// A design's preview list starts with the `de-DE` cover of width 500 of its
/// mounting type; with refinement, its `_ref` image.
pub proof fn lemma_preview_first_url(id: u32, mounting: Seq<char>)
    ensures
        preview_urls(id, mounting, false)[0]
            == "https://mp-prod-de-preview-service.s3.eu-central-1.amazonaws.com/resources/calendar-designs/"@
            + decimal(id as nat) + "/de-DE/mt-"@ + mounting + "_cv-cover-foreground_500.webp"@,
        preview_urls(id, mounting, true)[0]
            == "https://mp-prod-de-preview-service.s3.eu-central-1.amazonaws.com/resources/calendar-designs/"@
            + decimal(id as nat) + "/de-DE/mt-"@ + mounting + "_cv-cover-foreground_ref_500.webp"@,
{
    reveal_strlit("/");
    reveal_strlit("de-DE");
    reveal_strlit("/mt-");
    reveal_strlit("/de-DE/mt-");
    reveal_strlit("_cv-");
    reveal_strlit("cover");
    reveal_strlit("-foreground_");
    reveal_strlit("-foreground_ref_");
    reveal_strlit(".webp");
    reveal_strlit("_cv-cover-foreground_500.webp");
    reveal_strlit("_cv-cover-foreground_ref_500.webp");
    reveal_with_fuel(decimal, 4);
    assert(decimal(500) =~= seq!['5', '0', '0']);
    let a = "https://mp-prod-de-preview-service.s3.eu-central-1.amazonaws.com/resources/calendar-designs/"@
        + decimal(id as nat);
    assert(preview_urls(id, mounting, false)[0] =~= a + "/de-DE/mt-"@ + mounting
        + "_cv-cover-foreground_500.webp"@);
    assert(preview_urls(id, mounting, true)[0] =~= a + "/de-DE/mt-"@ + mounting
        + "_cv-cover-foreground_ref_500.webp"@);
}

} // verus!
