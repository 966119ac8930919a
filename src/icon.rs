//! Icon resolution: candidate paths from the descriptor, then the choice
//! among those that exist on disk or, failing that, a directory listing.
use vstd::prelude::*;
use vstd::string::*;
use crate::descriptor::{lookup_string, opt_view, string_entries};
use crate::text::{ends_with, has_suffix, owned};

verus! {

/// The icon file name for a descriptor value: `.icns` appended unless present.
pub open spec fn icon_file(v: Seq<char>) -> Seq<char> {
    if has_suffix(v, ".icns"@) {
        v
    } else {
        v + ".icns"@
    }
}

/// Where a bundle keeps its resources.
pub open spec fn resources_dir(app: Seq<char>) -> Seq<char> {
    app + "/Contents/Resources"@
}

pub open spec fn keyed_candidate(m: Map<Seq<char>, Seq<char>>, app: Seq<char>, key: Seq<char>) -> Seq<
    Seq<char>,
> {
    if m.contains_key(key) {
        seq![resources_dir(app) + "/"@ + icon_file(m[key])]
    } else {
        seq![]
    }
}

/// Candidate icon paths, in the order of the icon keys.
pub open spec fn icon_candidates_of(m: Map<Seq<char>, Seq<char>>, app: Seq<char>) -> Seq<Seq<char>> {
    keyed_candidate(m, app, "CFBundleIconFile"@) + keyed_candidate(m, app, "CFBundleIconName"@)
        + keyed_candidate(m, app, "CFBundleIcons"@)
}

/// The first candidate marked as existing; marks missing past the end count as absent.
pub open spec fn first_existing(c: Seq<Seq<char>>, e: Seq<bool>) -> Option<Seq<char>>
    decreases c.len(),
{
    if c.len() == 0 || e.len() == 0 {
        None
    } else if e[0] {
        Some(c[0])
    } else {
        first_existing(c.drop_first(), e.drop_first())
    }
}

/// The first file name with the icon extension.
pub open spec fn first_icns(names: Seq<Seq<char>>) -> Option<Seq<char>>
    decreases names.len(),
{
    if names.len() == 0 {
        None
    } else if has_suffix(names[0], ".icns"@) {
        Some(names[0])
    } else {
        first_icns(names.drop_first())
    }
}

pub open spec fn names_view(names: Seq<String>) -> Seq<Seq<char>> {
    names.map_values(|s: String| s@)
}

/// The icon chosen for a bundle: the first existing candidate, else the first
/// `.icns` file of the resources listing (if the directory could be read).
pub open spec fn chosen_icon(
    app: Seq<char>,
    candidates: Seq<Seq<char>>,
    exists: Seq<bool>,
    listing: Option<Seq<Seq<char>>>,
) -> Option<Seq<char>> {
    match first_existing(candidates, exists) {
        Some(p) => Some(p),
        None => match listing {
            Some(names) => match first_icns(names) {
                Some(n) => Some(resources_dir(app) + "/"@ + n),
                None => None,
            },
            None => None,
        },
    }
}

fn push_candidate(d: &plist::Dictionary, app_path: &str, key: &str, out: &mut Vec<String>)
    ensures
        names_view(final(out)@) == names_view(old(out)@) + keyed_candidate(
            string_entries(*d),
            app_path@,
            key@,
        ),
{
    match lookup_string(d, key) {
        Some(v) => {
            let file = if ends_with(v.as_str(), ".icns") {
                v
            } else {
                v.concat(".icns")
            };
            let p = owned(app_path).concat("/Contents/Resources").concat("/").concat(file.as_str());
            out.push(p);
            assert(names_view(out@) =~= names_view(old(out)@) + keyed_candidate(
                string_entries(*d),
                app_path@,
                key@,
            ));
        },
        None => {
            assert(names_view(out@) =~= names_view(old(out)@) + keyed_candidate(
                string_entries(*d),
                app_path@,
                key@,
            ));
        },
    }
}

/// The icon paths that the descriptor's icon keys point to, in key order.
/// Each still has to be checked for existence on disk.
pub fn icon_candidates(dict: &plist::Dictionary, app_path: &str) -> (r: Vec<String>)
    ensures
        names_view(r@) == icon_candidates_of(string_entries(*dict), app_path@),
{
    let mut out: Vec<String> = Vec::new();
    assert(names_view(out@) =~= Seq::<Seq<char>>::empty());
    push_candidate(dict, app_path, "CFBundleIconFile", &mut out);
    push_candidate(dict, app_path, "CFBundleIconName", &mut out);
    push_candidate(dict, app_path, "CFBundleIcons", &mut out);
    assert(names_view(out@) =~= icon_candidates_of(string_entries(*dict), app_path@));
    out
}

/// The resources directory of a bundle, which the fallback lists.
pub fn icon_resources_dir(app_path: &str) -> (r: String)
    ensures
        r@ == resources_dir(app_path@),
{
    owned(app_path).concat("/Contents/Resources")
}

/// Picks the icon of the bundle at `app_path`. `exists[i]` tells whether
/// `candidates[i]` exists on disk; `listing` holds the file names of the
/// resources directory, or `None` when it could not be read.
pub fn choose_icon_path(
    app_path: &str,
    candidates: &Vec<String>,
    exists: &Vec<bool>,
    listing: &Option<Vec<String>>,
) -> (r: Option<String>)
    ensures
        opt_view(r) == chosen_icon(
            app_path@,
            names_view(candidates@),
            exists@,
            match listing {
                Some(l) => Some(names_view(l@)),
                None => None,
            },
        ),
{
    let ghost c = names_view(candidates@);
    let mut i: usize = 0;
    assert(c.skip(0) =~= c);
    assert(exists@.skip(0) =~= exists@);
    while i < candidates.len() && i < exists.len()
        invariant
            c == names_view(candidates@),
            i <= candidates.len(),
            i <= exists.len(),
            first_existing(c, exists@) == first_existing(c.skip(i as int), exists@.skip(i as int)),
        decreases candidates.len() - i,
    {
        if exists[i] {
            return Some(candidates[i].clone());
        }
        assert(c.skip(i as int).drop_first() =~= c.skip(i + 1));
        assert(exists@.skip(i as int).drop_first() =~= exists@.skip(i + 1));
        i += 1;
    }
    assert(first_existing(c.skip(i as int), exists@.skip(i as int)) is None);
    match listing {
        None => None,
        Some(names) => {
            let ghost n = names_view(names@);
            let mut j: usize = 0;
            assert(n.skip(0) =~= n);
            while j < names.len()
                invariant
                    n == names_view(names@),
                    c == names_view(candidates@),
                    *listing == Some(*names),
                    first_existing(c, exists@) is None,
                    j <= names.len(),
                    first_icns(n) == first_icns(n.skip(j as int)),
                decreases names.len() - j,
            {
                if ends_with(names[j].as_str(), ".icns") {
                    assert(n.skip(j as int)[0] == names@[j as int]@);
                    let r = owned(app_path).concat("/Contents/Resources").concat("/").concat(
                        names[j].as_str(),
                    );
                    return Some(r);
                }
                assert(n.skip(j as int).drop_first() =~= n.skip(j + 1));
                j += 1;
            }
            None
        },
    }
}

/// With no candidate present on disk and no `.icns` file in the listing, no
/// icon is chosen, whatever the descriptor's icon keys name.
pub proof fn lemma_no_icon_without_file(
    app: Seq<char>,
    candidates: Seq<Seq<char>>,
    exists: Seq<bool>,
    listing: Option<Seq<Seq<char>>>,
)
    requires
        forall|i: int| 0 <= i < exists.len() ==> !exists[i],
        listing is Some ==> forall|k: int|
            0 <= k < listing->0.len() ==> !has_suffix(#[trigger] listing->0[k], ".icns"@),
    ensures
        chosen_icon(app, candidates, exists, listing) is None,
{
    lemma_none_existing(candidates, exists);
    if let Some(names) = listing {
        lemma_no_icns(names);
    }
}

proof fn lemma_none_existing(c: Seq<Seq<char>>, e: Seq<bool>)
    requires
        forall|i: int| 0 <= i < e.len() ==> !e[i],
    ensures
        first_existing(c, e) is None,
    decreases c.len(),
{
    if c.len() > 0 && e.len() > 0 {
        assert(!e[0]);
        lemma_none_existing(c.drop_first(), e.drop_first());
    }
}

proof fn lemma_no_icns(names: Seq<Seq<char>>)
    requires
        forall|k: int| 0 <= k < names.len() ==> !has_suffix(#[trigger] names[k], ".icns"@),
    ensures
        first_icns(names) is None,
    decreases names.len(),
{
    if names.len() > 0 {
        assert(!has_suffix(names[0], ".icns"@));
        assert forall|k: int| 0 <= k < names.drop_first().len() implies !has_suffix(
            #[trigger] names.drop_first()[k],
            ".icns"@,
        ) by {
            assert(names.drop_first()[k] == names[k + 1]);
        }
        lemma_no_icns(names.drop_first());
    }
}

} // verus!
