//! Which of the desktop's windows is the game client.
use crate::text;
use vstd::prelude::*;

verus! {

/// No smaller window is taken for the client.
pub const MIN_WIDTH: u32 = 400;

pub const MIN_HEIGHT: u32 = 300;

/// What `str::to_lowercase` returns for a text.
pub uninterp spec fn lowercase_of(s: Seq<char>) -> Seq<char>;

/// `str::to_lowercase` returns the lowercase form of a text, which depends on
/// the text alone.
pub assume_specification[ str::to_lowercase ](s: &str) -> (lower: String)
    ensures
        lower@ == lowercase_of(s@),
;

/// A window of the desktop. What could not be read of it is absent.
#[derive(Debug, Clone, PartialEq)]
pub struct WindowInfo {
    pub title: Option<String>,
    pub app_name: Option<String>,
    pub minimized: Option<bool>,
    pub width: Option<u32>,
    pub height: Option<u32>,
}

pub struct WindowModel {
    pub title: Option<Seq<char>>,
    pub app_name: Option<Seq<char>>,
    pub minimized: Option<bool>,
    pub width: Option<u32>,
    pub height: Option<u32>,
}

impl View for WindowInfo {
    type V = WindowModel;

    open spec fn view(&self) -> WindowModel {
        WindowModel {
            title: text::text_of(self.title),
            app_name: text::text_of(self.app_name),
            minimized: self.minimized,
            width: self.width,
            height: self.height,
        }
    }
}

/// The name of the client's executable.
pub open spec fn names_executable(app_lower: Seq<char>) -> bool {
    text::holds_text(app_lower, "mahjong-jp"@)
}

/// A title of the client, which varies by locale.
pub open spec fn names_title(title_lower: Seq<char>, title: Seq<char>) -> bool {
    text::holds_text(title_lower, "riichi city"@) || text::holds_text(title, "麻雀一番街"@)
}

impl WindowModel {
    /// The window is shown and large enough. What could not be read counts
    /// against it.
    pub open spec fn is_shown(self) -> bool {
        &&& self.minimized == Some(false)
        &&& self.width matches Some(w) && w >= MIN_WIDTH
        &&& self.height matches Some(h) && h >= MIN_HEIGHT
    }

    /// The name of the application in lowercase, empty where it could not be
    /// read.
    pub open spec fn app_lower(self) -> Seq<char> {
        match self.app_name {
            Some(name) => lowercase_of(name),
            None => lowercase_of(""@),
        }
    }

    /// The window is the client's and can be captured: it is matched by the
    /// executable, or by the title as fallback where that can be read.
    pub open spec fn is_client(self) -> bool {
        self.is_shown() && (names_executable(self.app_lower()) || (self.title matches Some(title)
            && names_title(lowercase_of(title), title)))
    }
}

/// Whether an application name, in lowercase, is that of the client's
/// executable.
pub fn matches_executable(app_lower: &str) -> (matches: bool)
    ensures
        matches == names_executable(app_lower@),
{
    text::contains_text(app_lower, "mahjong-jp")
}

/// Whether a title, given in lowercase and as it is, is one of the client's.
pub fn matches_title(title_lower: &str, title: &str) -> (matches: bool)
    ensures
        matches == names_title(title_lower@, title@),
{
    text::contains_text(title_lower, "riichi city") || text::contains_text(title, "麻雀一番街")
}

/// Whether a window is shown and large enough to be the client's.
pub fn is_shown(window: &WindowInfo) -> (shown: bool)
    ensures
        shown == window@.is_shown(),
{
    let minimized: bool = match window.minimized {
        Some(m) => m,
        None => true,
    };
    let width: u32 = match window.width {
        Some(w) => w,
        None => 0,
    };
    let height: u32 = match window.height {
        Some(h) => h,
        None => 0,
    };
    !minimized && width >= MIN_WIDTH && height >= MIN_HEIGHT
}

fn is_client(window: &WindowInfo) -> (client: bool)
    ensures
        client == window@.is_client(),
{
    if !is_shown(window) {
        return false;
    }
    let app: String = match &window.app_name {
        Some(name) => name.as_str().to_lowercase(),
        None => "".to_lowercase(),
    };
    if matches_executable(app.as_str()) {
        return true;
    }
    match &window.title {
        Some(title) => {
            let title_lower: String = title.as_str().to_lowercase();
            matches_title(title_lower.as_str(), title.as_str())
        },
        None => false,
    }
}

/// The frontmost window of the client, in a list ordered from the front: the
/// first that is not minimized, large enough, and named like the client.
pub fn find_riichi_city_window(windows: &[WindowInfo]) -> (found: Option<usize>)
    ensures
        match found {
            Some(i) => i < windows@.len() && windows@[i as int]@.is_client() && forall|j: int|
                0 <= j < i ==> !(#[trigger] windows@[j])@.is_client(),
            None => forall|j: int|
                0 <= j < windows@.len() ==> !(#[trigger] windows@[j])@.is_client(),
        },
{
    let mut i: usize = 0;
    while i < windows.len()
        invariant
            i <= windows@.len(),
            forall|j: int| 0 <= j < i ==> !(#[trigger] windows@[j])@.is_client(),
        decreases windows@.len() - i,
    {
        if is_client(&windows[i]) {
            return Some(i);
        }
        i = i + 1;
    }
    None
}

/// Which windows are the client's: those that are known not to be minimized and
/// to be at least 400 by 300, and whose application in lowercase holds the
/// name of the executable, or whose title holds one of the two names of the
/// game, the one in Latin letters in any case.
pub proof fn law_what_is_a_client_window(w: WindowModel)
    ensures
        w.is_client() <==> {
            &&& w.minimized == Some(false)
            &&& w.width matches Some(width) && width >= 400
            &&& w.height matches Some(height) && height >= 300
            &&& {
                ||| w.app_name matches Some(app) && text::holds_text(
                    lowercase_of(app),
                    "mahjong-jp"@,
                )
                ||| w.app_name is None && text::holds_text(lowercase_of(""@), "mahjong-jp"@)
                ||| w.title matches Some(title) && text::holds_text(
                    lowercase_of(title),
                    "riichi city"@,
                )
                ||| w.title matches Some(title) && text::holds_text(title, "麻雀一番街"@)
            }
        },
{
}

/// What could not be read of a window counts against it, and so does a window
/// that is minimized or too small, whatever its names.
pub proof fn law_what_is_unknown_is_no_client(w: WindowModel)
    requires
        w.minimized != Some(false) || w.width is None || w.height is None || (w.width matches Some(
            width,
        ) && width < 400) || (w.height matches Some(height) && height < 300),
    ensures
        !w.is_client(),
        !w.is_shown(),
{
}

} // verus!
