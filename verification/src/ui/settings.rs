//! The settings page: skins, cookies, the equalizer.

use vstd::prelude::*;

use crate::app::YtampApp;
use crate::eq;
use crate::eq::EqSettings;
use crate::model;
use crate::model::PlayerCommand;
use crate::settings::Settings;
use crate::text;
use crate::app;
use crate::app::standins;

verus! {

/// What picking a skin asks for.
#[derive(Debug)]
pub enum SkinChoice {
    /// It is the one that is worn.
    Keep,
    /// The skin of that name in the library.
    Load(String),
    /// The built-in look.
    Clear,
}

/// What picking a skin of the list asks for; none stands for the built-in look.
pub fn choose_skin(worn: &Option<String>, chosen: Option<String>) -> (choice: SkinChoice)
    ensures
        match choice {
            SkinChoice::Keep => model::text_view(*worn) == model::text_view(chosen),
            SkinChoice::Load(name) => {
                &&& model::text_view(*worn) != model::text_view(chosen)
                &&& chosen matches Some(c) && name@ == c@
            },
            SkinChoice::Clear => model::text_view(*worn) != model::text_view(chosen)
                && chosen is None,
        },
{
    match chosen {
        Some(name) => {
            if let Some(w) = worn {
                if text::same(w.as_str(), name.as_str()) {
                    return SkinChoice::Keep;
                }
            }
            SkinChoice::Load(name)
        },
        None => if worn.is_some() {
            SkinChoice::Clear
        } else {
            SkinChoice::Keep
        },
    }
}

/// The skin scale was set.
pub fn set_scale(app: &mut YtampApp, scale: u8)
    ensures
        *final(app) == (if scale == old(app).settings.skin_scale {
            *old(app)
        } else {
            YtampApp {
                settings: Settings { skin_scale: scale, ..old(app).settings },
                mini: standins::WinampState {
                    scale: app::scale_in_range(scale),
                    ..old(app).mini
                },
                settings_dirty: true,
                ..*old(app)
            }
        }),
{
    if scale != app.settings.skin_scale {
        app.settings.skin_scale = scale;
        app.mini.scale = app::clamp_scale(scale);
        app.settings_dirty = true;
    }
}

/// The cookie path as it is applied: none where the text is blank.
pub fn cookie_path_entered(path: &str) -> (next: Option<String>)
    ensures
        model::text_view(next) == (if text::trimmed(path@).len() > 0 {
            Some(text::trimmed(path@))
        } else {
            None
        }),
{
    let trimmed = text::trim(path);
    if trimmed.as_str().is_empty() {
        None
    } else {
        Some(trimmed)
    }
}

/// What is said of the cookie file: nothing where none is set. `jar` is what
/// the file holds, where it could be read.
pub fn cookie_status(path: &Option<String>, jar: Option<String>) -> (status: Option<String>)
    ensures
        model::text_view(status) == (if *path is None {
            None
        } else if app::usable(model::text_view(jar)) is Some {
            Some("Cookies loaded."@)
        } else {
            Some("Cookie file missing or empty."@)
        }),
{
    if path.is_none() {
        None
    } else if app::usable_cookies(jar).is_some() {
        Some("Cookies loaded.".to_owned())
    } else {
        Some("Cookie file missing or empty.".to_owned())
    }
}

/// The equalizer was turned: where that changed it, it is kept and the result
/// is what to tell the player.
pub fn set_eq(app: &mut YtampApp, wanted: EqSettings) -> (cmd: Option<PlayerCommand>)
    ensures
        eq::same_eq(wanted, old(app).settings.eq) ==> cmd is None && *final(app) == *old(app),
        !eq::same_eq(wanted, old(app).settings.eq) ==> cmd == Some(
            PlayerCommand::SetEq {
                enabled: wanted.enabled,
                gains_db: wanted.gains_db,
                preamp_db: wanted.preamp_db,
            },
        ) && *final(app) == (YtampApp {
            settings: Settings { eq: wanted, ..old(app).settings },
            settings_dirty: true,
            ..*old(app)
        }),
{
    if wanted.enabled == app.settings.eq.enabled && wanted.preamp_db.same(app.settings.eq.preamp_db)
        && eq::gains_equal(&wanted.gains_db, &app.settings.eq.gains_db) {
        return None;
    }
    app.settings.eq = wanted;
    app.settings_dirty = true;
    Some(app.send_eq())
}

} // verus!
