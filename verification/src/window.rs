//! The launcher window: which providers a query goes to, and how its input
//! and entries are laid out.
use vstd::prelude::*;

use crate::apps::APP_PREFIX;
use crate::calc::CALC_PREFIX;
use crate::emoji::EMOJI_PREFIX;
use crate::files::FILE_PREFIX;
use crate::system::SYSTEM_PREFIX;
use crate::text::{chars_of, string_from_chars, trim, trim_chars};

verus! {

/// The providers that a query goes to.
#[derive(Debug, Clone, Copy, PartialEq, Eq, Structural)]
pub enum Route {
    Apps,
    Calculator,
    Files,
    System,
    Emoji,
    All,
}

/// A query that starts with a provider's prefix goes to that provider
/// alone: `#` applications, `=` the calculator, `/` files, `*` system
/// actions, `!` emoji. Any other goes to the applications, the calculator
/// and the files.
pub open spec fn route_of(query: Seq<char>) -> Route {
    if query.len() > 0 && query[0] == APP_PREFIX {
        Route::Apps
    } else if query.len() > 0 && query[0] == CALC_PREFIX {
        Route::Calculator
    } else if query.len() > 0 && query[0] == FILE_PREFIX {
        Route::Files
    } else if query.len() > 0 && query[0] == SYSTEM_PREFIX {
        Route::System
    } else if query.len() > 0 && query[0] == EMOJI_PREFIX {
        Route::Emoji
    } else {
        Route::All
    }
}

pub fn route_query(query: &str) -> (r: Route)
    ensures
        r == route_of(query@),
{
    let q = chars_of(query);
    if q.len() > 0 && q[0] == APP_PREFIX {
        Route::Apps
    } else if q.len() > 0 && q[0] == CALC_PREFIX {
        Route::Calculator
    } else if q.len() > 0 && q[0] == FILE_PREFIX {
        Route::Files
    } else if q.len() > 0 && q[0] == SYSTEM_PREFIX {
        Route::System
    } else if q.len() > 0 && q[0] == EMOJI_PREFIX {
        Route::Emoji
    } else {
        Route::All
    }
}

/// The query that the text of the input asks: the text, trimmed.
pub fn query_of_input(text: &str) -> (r: String)
    ensures
        r@ == trim(text@),
{
    string_from_chars(&trim_chars(&chars_of(text)))
}

/// The results are revealed only for a query that shows at least one of them.
pub fn reveal_results(query: &str, any_visible: bool) -> (r: bool)
    ensures
        r == (query@.len() > 0 && any_visible),
{
    !query.is_empty() && any_visible
}

/// The size of an entry's icon: the configured entry size less four pixels.
pub fn window_icon_size(entry_size: u16) -> (r: u16)
    requires
        entry_size >= 4,
    ensures
        r == entry_size - 4,
{
    entry_size - 4
}

/// How an entry's icon is drawn.
#[derive(Debug, Clone, Copy, PartialEq, Eq, Structural)]
pub enum IconSource {
    /// Hidden.
    Hidden,
    /// Read from a file.
    File,
    /// Taken from the icon theme by name.
    Themed,
}

/// How an entry looks.
#[derive(Debug, Clone, Copy, PartialEq, Eq, Structural)]
pub struct EntryLayout {
    pub show_subtitle: bool,
    pub icon: IconSource,
    pub icon_size: u32,
    pub show_flatpak_badge: bool,
}

/// An entry shows its subtitle where it has one, its icon where it has
/// both an icon and a size (from a file for an application, from the theme
/// otherwise), and a badge for Flatpak applications.
pub open spec fn entry_layout_of(
    has_subtitle: bool,
    has_icon: bool,
    is_app: bool,
    is_flatpak: bool,
    size: Option<u32>,
) -> EntryLayout {
    EntryLayout {
        show_subtitle: has_subtitle,
        icon: if has_icon && size is Some {
            if is_app {
                IconSource::File
            } else {
                IconSource::Themed
            }
        } else {
            IconSource::Hidden
        },
        icon_size: match size {
            Some(s) => if has_icon {
                s
            } else {
                0
            },
            None => 0,
        },
        show_flatpak_badge: is_flatpak,
    }
}

pub fn entry_layout(
    has_subtitle: bool,
    has_icon: bool,
    is_app: bool,
    is_flatpak: bool,
    size: Option<u32>,
) -> (r: EntryLayout)
    ensures
        r == entry_layout_of(has_subtitle, has_icon, is_app, is_flatpak, size),
{
    let (icon, icon_size) = match size {
        Some(s) => if has_icon {
            (
                if is_app {
                    IconSource::File
                } else {
                    IconSource::Themed
                },
                s,
            )
        } else {
            (IconSource::Hidden, 0)
        },
        None => (IconSource::Hidden, 0),
    };
    EntryLayout { show_subtitle: has_subtitle, icon, icon_size, show_flatpak_badge: is_flatpak }
}

/// The sidebar shows its icon where there is one (from a file or the
/// theme as asked), and its subtitle where there is one.
pub open spec fn sidebar_layout_of(has_icon: bool, icon_is_file: bool, has_subtitle: bool) -> (
    IconSource,
    bool,
) {
    (
        if !has_icon {
            IconSource::Hidden
        } else if icon_is_file {
            IconSource::File
        } else {
            IconSource::Themed
        },
        has_subtitle,
    )
}

pub fn sidebar_layout(has_icon: bool, icon_is_file: bool, has_subtitle: bool) -> (r: (
    IconSource,
    bool,
))
    ensures
        r == sidebar_layout_of(has_icon, icon_is_file, has_subtitle),
{
    let icon = if !has_icon {
        IconSource::Hidden
    } else if icon_is_file {
        IconSource::File
    } else {
        IconSource::Themed
    };
    (icon, has_subtitle)
}

} // verus!
