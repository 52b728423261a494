//! The embedded icon set: icon names, their asset paths, and lookup and
//! directory listing over the embedded paths.

use vstd::prelude::*;

use vstd::string::StringSliceAdditionalSpecFns;

use crate::ids::string_from_chars;
use crate::text::chars_of;

verus! {

/// Paths of the embedded assets.
pub const ASSET_PATHS: [&'static str; 15] = [
    "icons/refresh.svg",
    "icons/plus.svg",
    "icons/close.svg",
    "icons/ellipsis.svg",
    "icons/archive.svg",
    "icons/baseline.svg",
    "icons/circle-play.svg",
    "icons/eye.svg",
    "icons/eye-closed.svg",
    "icons/eye-off.svg",
    "icons/folder.svg",
    "icons/folder-open.svg",
    "icons/pin.svg",
    "icons/arrow-up.svg",
    "icons/clock.svg",
];

pub const REFRESH: &'static str = r##"<svg xmlns="http://www.w3.org/2000/svg" width="16" height="16" fill="none"><path stroke="#000" stroke-linecap="round" stroke-width="1.2" d="M4.667 14V8m0 0H2m2.667 0h2.666"/><path stroke="#000" stroke-linecap="round" stroke-linejoin="round" stroke-width="1.2" d="M14 12.667h-3.333V9.333"/><path fill="#000" d="M4.03 3.5a.667.667 0 0 0 .883 1l-.882-1ZM8 3.333A4.667 4.667 0 0 1 12.666 8H14a6 6 0 0 0-6-6v1.333ZM12.666 8a4.656 4.656 0 0 1-1.75 3.643l.834 1.04A5.99 5.99 0 0 0 14 8h-1.334ZM5.667 3.957A4.642 4.642 0 0 1 8 3.333V2a5.976 5.976 0 0 0-3 .803l.667 1.154Zm-.754.543c.232-.205.485-.387.754-.543l-.668-1.154c-.346.2-.67.434-.968.697l.882 1Z"/></svg>"##;
pub const PLUS: &'static str = r##"<svg width="16" height="16" viewBox="0 0 16 16" fill="none" xmlns="http://www.w3.org/2000/svg"><path d="M3.33325 8H12.6666" stroke="black" stroke-width="1.2" stroke-linecap="round" stroke-linejoin="round"/><path d="M8 3.33333V12.6667" stroke="black" stroke-width="1.2" stroke-linecap="round" stroke-linejoin="round"/></svg>"##;
pub const CLOSE: &'static str = r##"<svg width="16" height="16" viewBox="0 0 16 16" fill="none" xmlns="http://www.w3.org/2000/svg"><path d="M4.70581 4.5L11.294 11.5M11.294 4.5L4.70581 11.5" stroke="black" stroke-width="1.2" stroke-linecap="round"/></svg>"##;
pub const ELLIPSIS: &'static str = r##"<svg width="16" height="16" viewBox="0 0 16 16" fill="none" xmlns="http://www.w3.org/2000/svg"><circle cx="3" cy="8" r="1" fill="black" stroke="black" stroke-width="0.5"/><circle cx="8" cy="8" r="1" fill="black" stroke="black" stroke-width="0.5"/><circle cx="13" cy="8" r="1" fill="black" stroke="black" stroke-width="0.5"/></svg>"##;
pub const ARCHIVE: &'static str = r##"<svg viewBox="0 0 16 16" xmlns="http://www.w3.org/2000/svg"><path d="M2.5 4.5h11v9h-11zM2 2.5h12v2H2zM6 7h4" fill="none" stroke="black" stroke-width="1.2" stroke-linejoin="round"/></svg>"##;
pub const BASELINE: &'static str = r##"<svg viewBox="0 0 16 16" xmlns="http://www.w3.org/2000/svg"><path d="M8 13V3m0 0L4.5 6.5M8 3l3.5 3.5" fill="none" stroke="black" stroke-width="1.2" stroke-linecap="round" stroke-linejoin="round"/></svg>"##;
pub const CIRCLE_PLAY: &'static str = r##"<svg viewBox="0 0 16 16" xmlns="http://www.w3.org/2000/svg"><circle cx="8" cy="8" r="5.5" fill="none" stroke="black" stroke-width="1.2"/><path d="m6.8 5.5 3.5 2.5-3.5 2.5z" fill="black"/></svg>"##;
pub const EYE: &'static str = r##"<svg viewBox="0 0 16 16" xmlns="http://www.w3.org/2000/svg"><path d="M1.8 8s2.2-3.5 6.2-3.5S14.2 8 14.2 8 12 11.5 8 11.5 1.8 8 1.8 8Z" fill="none" stroke="black" stroke-width="1.2"/><circle cx="8" cy="8" r="1.7" fill="none" stroke="black" stroke-width="1.2"/></svg>"##;
pub const EYE_CLOSED: &'static str = r##"<svg viewBox="0 0 16 16" xmlns="http://www.w3.org/2000/svg"><path d="M2 8.5s2.2 2.5 6 2.5 6-2.5 6-2.5M4 11l-1 2m4-1.5L6.7 14m5.3-3-1 2" fill="none" stroke="black" stroke-width="1.2" stroke-linecap="round"/></svg>"##;
pub const EYE_OFF: &'static str = r##"<svg viewBox="0 0 16 16" xmlns="http://www.w3.org/2000/svg"><path d="M2 2l12 12M6.5 4.7A7 7 0 0 1 8 4.5c4 0 6.2 3.5 6.2 3.5a9 9 0 0 1-2 2.2M9.5 11.3A7 7 0 0 1 8 11.5C4 11.5 1.8 8 1.8 8a9 9 0 0 1 2-2.2" fill="none" stroke="black" stroke-width="1.2" stroke-linecap="round"/></svg>"##;
pub const FOLDER: &'static str = r##"<svg viewBox="0 0 16 16" xmlns="http://www.w3.org/2000/svg"><path d="M1.8 4.2h5l1.2 1.5h6.2v7.1H1.8z" fill="none" stroke="black" stroke-width="1.2" stroke-linejoin="round"/></svg>"##;
pub const FOLDER_OPEN: &'static str = r##"<svg viewBox="0 0 16 16" xmlns="http://www.w3.org/2000/svg"><path d="M2 5V3.5h4.5L8 5h6v2M2 6.8h12.5l-1.8 6H3.2z" fill="none" stroke="black" stroke-width="1.2" stroke-linejoin="round"/></svg>"##;
pub const PIN: &'static str = r##"<svg viewBox="0 0 16 16" xmlns="http://www.w3.org/2000/svg"><path d="m5 2 6 6-2 1.2-.7 3.3-4.8-4.8L6.8 7zM3.5 12.5l2.2-2.2" fill="none" stroke="black" stroke-width="1.2" stroke-linecap="round" stroke-linejoin="round"/></svg>"##;
pub const ARROW_UP: &'static str = r##"<svg viewBox="0 0 16 16" xmlns="http://www.w3.org/2000/svg"><path d="M8 13V3m0 0L4.5 6.5M8 3l3.5 3.5" fill="none" stroke="black" stroke-width="1.2" stroke-linecap="round" stroke-linejoin="round"/></svg>"##;
pub const CLOCK: &'static str = r##"<svg viewBox="0 0 16 16" xmlns="http://www.w3.org/2000/svg"><circle cx="8" cy="8" r="5.5" fill="none" stroke="black" stroke-width="1.2"/><path d="M8 4.8V8l2.3 1.4" fill="none" stroke="black" stroke-width="1.2" stroke-linecap="round" stroke-linejoin="round"/></svg>"##;

/// The SVG documents of the embedded assets, in the order of [`ASSET_PATHS`].
pub const ASSET_SVGS: [&'static str; 15] = [
    REFRESH,
    PLUS,
    CLOSE,
    ELLIPSIS,
    ARCHIVE,
    BASELINE,
    CIRCLE_PLAY,
    EYE,
    EYE_CLOSED,
    EYE_OFF,
    FOLDER,
    FOLDER_OPEN,
    PIN,
    ARROW_UP,
    CLOCK,
];

/// The texts of the embedded asset paths, in table order.
pub open spec fn asset_paths() -> Seq<Seq<char>> {
    ASSET_PATHS@.map_values(|p: &'static str| p@)
}

/// The tone of a status badge.
#[derive(Clone, Copy, Debug, PartialEq, Eq, Structural)]
pub enum StatusTone {
    Info,
    Error,
}

/// The icons the viewer draws.
#[derive(Clone, Copy, Debug, PartialEq, Eq, Structural)]
pub enum IconName {
    Archive,
    ArrowUp,
    Baseline,
    CirclePlay,
    Clock,
    Close,
    Ellipsis,
    Eye,
    EyeClosed,
    EyeOff,
    Folder,
    FolderOpen,
    PanelBottomClose,
    PanelBottomOpen,
    Pin,
    Plus,
    Refresh,
}

/// The asset path an icon is drawn from.
pub open spec fn icon_path(icon: IconName) -> Seq<char> {
    match icon {
        IconName::Archive => "icons/archive.svg"@,
        IconName::ArrowUp => "icons/arrow-up.svg"@,
        IconName::Baseline => "icons/baseline.svg"@,
        IconName::CirclePlay => "icons/circle-play.svg"@,
        IconName::Clock => "icons/clock.svg"@,
        IconName::Close => "icons/close.svg"@,
        IconName::Ellipsis => "icons/ellipsis.svg"@,
        IconName::Eye => "icons/eye.svg"@,
        IconName::EyeClosed => "icons/eye-closed.svg"@,
        IconName::EyeOff => "icons/eye-off.svg"@,
        IconName::Folder => "icons/folder.svg"@,
        IconName::FolderOpen => "icons/folder-open.svg"@,
        IconName::PanelBottomClose => "icons/panel-bottom-close.svg"@,
        IconName::PanelBottomOpen => "icons/panel-bottom-open.svg"@,
        IconName::Pin => "icons/pin.svg"@,
        IconName::Plus => "icons/plus.svg"@,
        IconName::Refresh => "icons/refresh.svg"@,
    }
}

impl IconName {
    /// The asset path the icon is drawn from.
    pub fn path(self) -> (path: &'static str)
        ensures
            path@ == icon_path(self),
    {
        match self {
            IconName::Archive => "icons/archive.svg",
            IconName::ArrowUp => "icons/arrow-up.svg",
            IconName::Baseline => "icons/baseline.svg",
            IconName::CirclePlay => "icons/circle-play.svg",
            IconName::Clock => "icons/clock.svg",
            IconName::Close => "icons/close.svg",
            IconName::Ellipsis => "icons/ellipsis.svg",
            IconName::Eye => "icons/eye.svg",
            IconName::EyeClosed => "icons/eye-closed.svg",
            IconName::EyeOff => "icons/eye-off.svg",
            IconName::Folder => "icons/folder.svg",
            IconName::FolderOpen => "icons/folder-open.svg",
            IconName::PanelBottomClose => "icons/panel-bottom-close.svg",
            IconName::PanelBottomOpen => "icons/panel-bottom-open.svg",
            IconName::Pin => "icons/pin.svg",
            IconName::Plus => "icons/plus.svg",
            IconName::Refresh => "icons/refresh.svg",
        }
    }
}

/// `s` without its trailing slashes.
pub open spec fn without_trailing_slashes(s: Seq<char>) -> Seq<char>
    decreases s.len(),
{
    if s.len() > 0 && s.last() == '/' {
        without_trailing_slashes(s.drop_last())
    } else {
        s
    }
}

/// The name under which `asset` is listed in directory `dir`: what follows
/// `dir` and one slash, when that holds no further slash.
pub open spec fn listed_name(asset: Seq<char>, dir: Seq<char>) -> Option<Seq<char>> {
    let prefix = dir.push('/');
    if prefix.len() <= asset.len() && asset.take(prefix.len() as int) == prefix && !asset.skip(
        prefix.len() as int,
    ).contains('/') {
        Some(asset.skip(prefix.len() as int))
    } else {
        None
    }
}

/// The names listed for directory `dir` among `assets`, in table order.
pub open spec fn listing(assets: Seq<Seq<char>>, dir: Seq<char>) -> Seq<Seq<char>>
    decreases assets.len(),
{
    if assets.len() == 0 {
        Seq::empty()
    } else {
        let earlier = listing(assets.drop_last(), dir);
        match listed_name(assets.last(), dir) {
            Some(name) => earlier.push(name),
            None => earlier,
        }
    }
}

fn same_chars(a: &Vec<char>, b: &Vec<char>) -> (same: bool)
    ensures
        same == (a@ == b@),
{
    if a.len() != b.len() {
        return false;
    }
    let mut i: usize = 0;
    while i < a.len()
        invariant
            a@.len() == b@.len(),
            i <= a@.len(),
            forall|k: int| 0 <= k < i ==> a@[k] == b@[k],
        decreases a@.len() - i,
    {
        if a[i] != b[i] {
            return false;
        }
        i = i + 1;
    }
    proof {
        assert(a@ =~= b@);
    }
    true
}

/// The position of the embedded asset with this exact path.
pub fn asset_index(path: &str) -> (index: Option<usize>)
    ensures
        match index {
            Some(i) => i < 15 && asset_paths()[i as int] == path@,
            None => !asset_paths().contains(path@),
        },
{
    let wanted = chars_of(path);
    let mut i: usize = 0;
    while i < 15
        invariant
            i <= 15,
            wanted@ == path@,
            forall|k: int| 0 <= k < i ==> asset_paths()[k] != path@,
        decreases 15 - i,
    {
        let candidate = chars_of(ASSET_PATHS[i]);
        if same_chars(&candidate, &wanted) {
            return Some(i);
        }
        i = i + 1;
    }
    None
}

fn trim_trailing_slashes(s: &Vec<char>) -> (trimmed: Vec<char>)
    ensures
        trimmed@ == without_trailing_slashes(s@),
{
    let mut end = s.len();
    proof {
        assert(s@.take(end as int) =~= s@);
    }
    while end > 0 && s[end - 1] == '/'
        invariant
            end <= s@.len(),
            without_trailing_slashes(s@.take(end as int)) == without_trailing_slashes(s@),
        decreases end,
    {
        proof {
            assert(s@.take(end as int).drop_last() =~= s@.take(end - 1));
        }
        end = end - 1;
    }
    let mut out: Vec<char> = Vec::new();
    let mut i: usize = 0;
    while i < end
        invariant
            i <= end <= s@.len(),
            out@ == s@.take(i as int),
        decreases end - i,
    {
        out.push(s[i]);
        proof {
            assert(s@.take(i + 1) =~= s@.take(i as int).push(s@[i as int]));
        }
        i = i + 1;
    }
    proof {
        let t = s@.take(end as int);
        assert(!(t.len() > 0 && t.last() == '/'));
        assert(without_trailing_slashes(t) == t);
    }
    out
}

fn listed_name_of(asset: &Vec<char>, prefix: &Vec<char>) -> (name: Option<Vec<char>>)
    requires
        prefix@.len() > 0,
        prefix@.last() == '/',
    ensures
        match name {
            Some(n) => listed_name(asset@, prefix@.drop_last()) == Some(n@),
            None => listed_name(asset@, prefix@.drop_last()) is None,
        },
{
    proof {
        assert(prefix@.drop_last().push('/') =~= prefix@);
    }
    if prefix.len() > asset.len() {
        proof {
            assert(prefix@.drop_last().push('/') == prefix@);
        }
        return None;
    }
    let mut i: usize = 0;
    while i < prefix.len()
        invariant
            prefix@.drop_last().push('/') == prefix@,
            prefix@.len() <= asset@.len(),
            i <= prefix@.len(),
            forall|k: int| 0 <= k < i ==> asset@[k] == prefix@[k],
        decreases prefix@.len() - i,
    {
        if asset[i] != prefix[i] {
            proof {
                assert(asset@.take(prefix@.len() as int)[i as int] != prefix@[i as int]);
                assert(asset@.take(prefix@.len() as int) != prefix@);
                assert(prefix@.drop_last().push('/') == prefix@);
            }
            return None;
        }
        i = i + 1;
    }
    proof {
        assert(asset@.take(prefix@.len() as int) =~= prefix@);
    }
    let mut rest: Vec<char> = Vec::new();
    let mut j = prefix.len();
    while j < asset.len()
        invariant
            prefix@.drop_last().push('/') == prefix@,
            asset@.take(prefix@.len() as int) == prefix@,
            prefix@.len() <= j <= asset@.len(),
            rest@ == asset@.subrange(prefix@.len() as int, j as int),
            !rest@.contains('/'),
        decreases asset@.len() - j,
    {
        if asset[j] == '/' {
            proof {
                let tail = asset@.skip(prefix@.len() as int);
                assert(tail[j - prefix@.len()] == '/');
                assert(tail.contains('/'));
                assert(prefix@.drop_last().push('/') == prefix@);
            }
            return None;
        }
        rest.push(asset[j]);
        proof {
            assert(rest@ =~= asset@.subrange(prefix@.len() as int, j + 1));
        }
        j = j + 1;
    }
    proof {
        assert(rest@ =~= asset@.skip(prefix@.len() as int));
        assert(prefix@.drop_last().push('/') == prefix@);
    }
    Some(rest)
}

/// The embedded assets directly inside directory `path` (trailing slashes
/// ignored), by name, in table order.
pub fn list_assets(path: &str) -> (names: Vec<String>)
    ensures
        names@.map_values(|n: String| n@) == listing(asset_paths(), without_trailing_slashes(path@)),
{
    let path_chars = chars_of(path);
    let mut prefix = trim_trailing_slashes(&path_chars);
    let ghost dir = prefix@;
    prefix.push('/');
    proof {
        assert(prefix@.drop_last() =~= dir);
    }
    let mut names: Vec<String> = Vec::new();
    let mut i: usize = 0;
    while i < 15
        invariant
            i <= 15,
            prefix@.len() > 0,
            prefix@.last() == '/',
            prefix@.drop_last() == dir,
            dir == without_trailing_slashes(path@),
            names@.map_values(|n: String| n@) == listing(asset_paths().take(i as int), dir),
        decreases 15 - i,
    {
        let asset = chars_of(ASSET_PATHS[i]);
        proof {
            assert(asset_paths().take(i + 1).drop_last() =~= asset_paths().take(i as int));
            assert(asset_paths().take(i + 1).last() == asset@);
        }
        match listed_name_of(&asset, &prefix) {
            Some(name) => {
                let ghost before = names@;
                names.push(string_from_chars(&name));
                proof {
                    assert(names@.map_values(|n: String| n@) =~= before.map_values(|n: String| n@).push(name@));
                }
            },
            None => {},
        }
        i = i + 1;
    }
    proof {
        assert(asset_paths().take(15) =~= asset_paths());
    }
    names
}


/// The embedded icon set.
#[derive(Clone, Copy, Debug)]
pub struct ViewerAssets;

impl ViewerAssets {
    /// The bytes of the embedded asset at exactly `path`, if there is one.
    pub fn load(&self, path: &str) -> (bytes: Option<&'static [u8]>)
        ensures
            match bytes {
                Some(b) => exists|i: int| 0 <= i < 15 && asset_paths()[i] == path@ && b@ == ASSET_SVGS[i].spec_bytes(),
                None => !asset_paths().contains(path@),
            },
    {
        match asset_index(path) {
            Some(i) => Some(ASSET_SVGS[i].as_bytes()),
            None => None,
        }
    }

    /// The names of the embedded assets directly inside directory `path`.
    pub fn list(&self, path: &str) -> (names: Vec<String>)
        ensures
            names@.map_values(|n: String| n@) == listing(asset_paths(), without_trailing_slashes(path@)),
    {
        list_assets(path)
    }
}

} // verus!
