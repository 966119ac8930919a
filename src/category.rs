//! Category labels: the descriptor's category code, or a guess from the path.
use vstd::prelude::*;
use crate::text::{contains, has_infix, str_eq, owned};

verus! {

/// The human label for a category code; unknown codes are "Other".
pub open spec fn category_label(code: Seq<char>) -> Seq<char> {
    if code == "public.app-category.productivity"@ {
        "Productivity"@
    } else if code == "public.app-category.graphics-design"@ {
        "Graphics & Design"@
    } else if code == "public.app-category.developer-tools"@ {
        "Developer Tools"@
    } else if code == "public.app-category.entertainment"@ {
        "Entertainment"@
    } else if code == "public.app-category.education"@ {
        "Education"@
    } else if code == "public.app-category.lifestyle"@ {
        "Lifestyle"@
    } else if code == "public.app-category.utilities"@ {
        "Utilities"@
    } else if code == "public.app-category.games"@ {
        "Games"@
    } else if code == "public.app-category.social-networking"@ {
        "Social Networking"@
    } else if code == "public.app-category.finance"@ {
        "Finance"@
    } else if code == "public.app-category.photography"@ {
        "Photography"@
    } else if code == "public.app-category.music"@ {
        "Music"@
    } else if code == "public.app-category.video"@ {
        "Video"@
    } else {
        "Other"@
    }
}

/// The category implied by well-known folder names in a bundle path.
pub open spec fn path_category(path: Seq<char>) -> Option<Seq<char>> {
    if has_infix(path, "Utilities"@) {
        Some("Utilities"@)
    } else if has_infix(path, "Games"@) {
        Some("Games"@)
    } else if has_infix(path, "Graphics"@) || has_infix(path, "Design"@) {
        Some("Graphics & Design"@)
    } else {
        None
    }
}

/// Maps a category code to its human label.
pub fn format_app_category(category: &str) -> (r: String)
    ensures
        r@ == category_label(category@),
{
    if str_eq(category, "public.app-category.productivity") {
        owned("Productivity")
    } else if str_eq(category, "public.app-category.graphics-design") {
        owned("Graphics & Design")
    } else if str_eq(category, "public.app-category.developer-tools") {
        owned("Developer Tools")
    } else if str_eq(category, "public.app-category.entertainment") {
        owned("Entertainment")
    } else if str_eq(category, "public.app-category.education") {
        owned("Education")
    } else if str_eq(category, "public.app-category.lifestyle") {
        owned("Lifestyle")
    } else if str_eq(category, "public.app-category.utilities") {
        owned("Utilities")
    } else if str_eq(category, "public.app-category.games") {
        owned("Games")
    } else if str_eq(category, "public.app-category.social-networking") {
        owned("Social Networking")
    } else if str_eq(category, "public.app-category.finance") {
        owned("Finance")
    } else if str_eq(category, "public.app-category.photography") {
        owned("Photography")
    } else if str_eq(category, "public.app-category.music") {
        owned("Music")
    } else if str_eq(category, "public.app-category.video") {
        owned("Video")
    } else {
        owned("Other")
    }
}

/// Guesses a category from folder names in a bundle path.
pub fn guess_category_from_path(path: &str) -> (r: Option<String>)
    ensures
        r.is_some() == path_category(path@).is_some(),
        r.is_some() ==> r->0@ == path_category(path@)->0,
{
    if contains(path, "Utilities") {
        Some(owned("Utilities"))
    } else if contains(path, "Games") {
        Some(owned("Games"))
    } else if contains(path, "Graphics") || contains(path, "Design") {
        Some(owned("Graphics & Design"))
    } else {
        None
    }
}

} // verus!
