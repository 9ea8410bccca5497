use calendar_assets::overlay::url::build_urls as build_overlay_urls;
use calendar_assets::url::build_urls as build_preview_urls;

const SIZES: [u32; 6] = [500, 1080, 1242, 1440, 2048, 2560];
const LOCALES: [&str; 6] = ["de-DE", "fr-FR", "nl-NL", "de-AT", "es-ES", "it-IT"];
const FOREGROUNDS: [&str; 2] = ["cover", "month"];

fn expected_previews(id: u32, mounting: &str, refinement: bool) -> Vec<String> {
    let mut urls = Vec::new();
    for size in SIZES {
        for locale in LOCALES {
            for foreground in FOREGROUNDS {
                let middle = if refinement { "ref_" } else { "" };
                urls.push(format!(
                    "https://mp-prod-de-preview-service.s3.eu-central-1.amazonaws.com/resources/calendar-designs/{}/{}/mt-{}_cv-{}-foreground_{}{}.webp",
                    id, locale, mounting, foreground, middle, size
                ));
            }
        }
    }
    urls
}

fn expected_overlays(year: u32, path: &str, hash: &str, refinement: bool) -> Vec<String> {
    let mut urls = Vec::new();
    for locale in LOCALES {
        for month in 0..=12 {
            if locale == "de-AT" && month != 1 {
                continue;
            }
            let stem = format!(
                "https://mp-prod-de-calendar-data.s3.eu-central-1.amazonaws.com{}/{}_{}_{}_{}",
                path, hash, year, month, locale
            );
            if refinement {
                urls.push(format!("{}_refBase.png", stem));
                urls.push(format!("{}_refMask.png", stem));
            } else {
                urls.push(format!("{}.png", stem));
            }
        }
    }
    urls
}

#[test]
fn preview_urls_first_and_last() {
    let urls = build_preview_urls(42, &"wall".to_string(), false);
    assert_eq!(urls.len(), 72);
    assert_eq!(
        urls[0],
        "https://mp-prod-de-preview-service.s3.eu-central-1.amazonaws.com/resources/calendar-designs/42/de-DE/mt-wall_cv-cover-foreground_500.webp"
    );
    assert_eq!(
        urls[1],
        "https://mp-prod-de-preview-service.s3.eu-central-1.amazonaws.com/resources/calendar-designs/42/de-DE/mt-wall_cv-month-foreground_500.webp"
    );
    assert_eq!(
        urls[71],
        "https://mp-prod-de-preview-service.s3.eu-central-1.amazonaws.com/resources/calendar-designs/42/it-IT/mt-wall_cv-month-foreground_2560.webp"
    );
}

#[test]
fn preview_urls_refinement() {
    let urls = build_preview_urls(7, &"desk".to_string(), true);
    assert_eq!(
        urls[14],
        "https://mp-prod-de-preview-service.s3.eu-central-1.amazonaws.com/resources/calendar-designs/7/fr-FR/mt-desk_cv-cover-foreground_ref_1080.webp"
    );
}

#[test]
fn preview_urls_match_format() {
    for (id, mounting) in [(0u32, ""), (1, "a"), (123456, "poster-a3"), (u32::MAX, "x_y")] {
        for refinement in [false, true] {
            assert_eq!(
                build_preview_urls(id, &mounting.to_string(), refinement),
                expected_previews(id, mounting, refinement)
            );
        }
    }
}

#[test]
fn overlay_urls_counts() {
    assert_eq!(build_overlay_urls(2024, "/p".to_string(), "h".to_string(), false).len(), 66);
    assert_eq!(build_overlay_urls(2024, "/p".to_string(), "h".to_string(), true).len(), 132);
}

#[test]
fn overlay_urls_examples() {
    let urls = build_overlay_urls(2024, "/cal/12".to_string(), "abc".to_string(), false);
    assert_eq!(
        urls[0],
        "https://mp-prod-de-calendar-data.s3.eu-central-1.amazonaws.com/cal/12/abc_2024_0_de-DE.png"
    );
    // de-AT only has month 1, right after the 39 images of the first three locales.
    assert_eq!(
        urls[39],
        "https://mp-prod-de-calendar-data.s3.eu-central-1.amazonaws.com/cal/12/abc_2024_1_de-AT.png"
    );
    assert_eq!(
        urls[40],
        "https://mp-prod-de-calendar-data.s3.eu-central-1.amazonaws.com/cal/12/abc_2024_0_es-ES.png"
    );
    assert_eq!(
        urls[65],
        "https://mp-prod-de-calendar-data.s3.eu-central-1.amazonaws.com/cal/12/abc_2024_12_it-IT.png"
    );
}

#[test]
fn overlay_urls_refinement_pairs() {
    let plain = build_overlay_urls(2025, "/d".to_string(), "hh".to_string(), false);
    let refined = build_overlay_urls(2025, "/d".to_string(), "hh".to_string(), true);
    assert_eq!(refined.len(), 2 * plain.len());
    for (k, url) in plain.iter().enumerate() {
        let stem = url.strip_suffix(".png").unwrap();
        assert_eq!(refined[2 * k], format!("{}_refBase.png", stem));
        assert_eq!(refined[2 * k + 1], format!("{}_refMask.png", stem));
    }
}

#[test]
fn overlay_urls_match_format() {
    for (year, path, hash) in [(0u32, "", ""), (2024, "/a/b", "f00"), (u32::MAX, "/x", "_")] {
        for refinement in [false, true] {
            assert_eq!(
                build_overlay_urls(year, path.to_string(), hash.to_string(), refinement),
                expected_overlays(year, path, hash, refinement)
            );
        }
    }
}
