//! The settings of the program.

use vstd::prelude::*;

use crate::text::{lemma_trimmed_between, trim, trimmed, white};

verus! {

/// Where the program listens, where it keeps its store and which variable holds its key.
#[derive(Debug)]
pub struct AppSettings {
    pub bind_addr: String,
    pub store_path: String,
    pub master_key_env: String,
}

/// What [`AppSettings`] hold.
#[verifier::ext_equal]
pub struct AppSettingsModel {
    pub bind_addr: Seq<char>,
    pub store_path: Seq<char>,
    pub master_key_env: Seq<char>,
}

impl View for AppSettings {
    type V = AppSettingsModel;

    open spec fn view(&self) -> AppSettingsModel {
        AppSettingsModel {
            bind_addr: self.bind_addr@,
            store_path: self.store_path@,
            master_key_env: self.master_key_env@,
        }
    }
}

impl AppSettingsModel {
    /// The settings where nothing is set.
    pub open spec fn defaults() -> Self {
        AppSettingsModel {
            bind_addr: "127.0.0.1:3000"@,
            store_path: "data/store.json"@,
            master_key_env: "PERP_ARB_MASTER_KEY"@,
        }
    }
}

/// The setting that a value makes: the trimmed value, unless nothing is left of it.
pub open spec fn setting(value: Option<Seq<char>>, default: Seq<char>) -> Seq<char> {
    match value {
        Some(text) => if trimmed(text).len() > 0 {
            trimmed(text)
        } else {
            default
        },
        None => default,
    }
}

/// What a text in an `Option` holds.
pub open spec fn given(value: Option<&str>) -> Option<Seq<char>> {
    match value {
        Some(text) => Some(text@),
        None => None,
    }
}

impl Default for AppSettings {
    fn default() -> (r: Self)
        ensures
            r@ == AppSettingsModel::defaults(),
    {
        AppSettings {
            bind_addr: "127.0.0.1:3000".to_owned(),
            store_path: "data/store.json".to_owned(),
            master_key_env: "PERP_ARB_MASTER_KEY".to_owned(),
        }
    }
}

impl AppSettings {
    /// The settings that the values of the three variables make.
    pub fn from_values(
        bind_addr: Option<&str>,
        store_path: Option<&str>,
        master_key_env: Option<&str>,
    ) -> (r: Self)
        ensures
            r@ == (AppSettingsModel {
                bind_addr: setting(given(bind_addr), AppSettingsModel::defaults().bind_addr),
                store_path: setting(given(store_path), AppSettingsModel::defaults().store_path),
                master_key_env: setting(
                    given(master_key_env),
                    AppSettingsModel::defaults().master_key_env,
                ),
            }),
    {
        let defaults = AppSettings::default();
        AppSettings {
            bind_addr: setting_or(bind_addr, defaults.bind_addr),
            store_path: setting_or(store_path, defaults.store_path),
            master_key_env: setting_or(master_key_env, defaults.master_key_env),
        }
    }
}

fn setting_or(value: Option<&str>, default: String) -> (r: String)
    ensures
        r@ == setting(given(value), default@),
{
    match value {
        Some(text) => {
            let trimmed_text = trim(text);
            if trimmed_text.as_str().is_empty() {
                default
            } else {
                trimmed_text
            }
        },
        None => default,
    }
}

/// White space around a value does not matter. Where nothing else is there, or no value at all, the
/// default is set.
pub proof fn values_are_set_without_white_space(
    before: Seq<char>,
    text: Seq<char>,
    after: Seq<char>,
    default: Seq<char>,
)
    requires
        forall|i: int| 0 <= i < before.len() ==> white(#[trigger] before[i]),
        forall|i: int| 0 <= i < after.len() ==> white(#[trigger] after[i]),
        text.len() > 0 ==> !white(text.first()) && !white(text.last()),
    ensures
        setting(None, default) == default,
        text.len() == 0 ==> setting(Some(before + text + after), default) == default,
        text.len() > 0 ==> setting(Some(before + text + after), default) == text,
{
    lemma_trimmed_between(before, text, after);
}

/// Where nothing is set, the program listens on the local port 3000, keeps its store in
/// `data/store.json` and finds its key in `PERP_ARB_MASTER_KEY`.
pub proof fn defaults_are_set()
    ensures
        AppSettingsModel::defaults().bind_addr == "127.0.0.1:3000"@,
        AppSettingsModel::defaults().store_path == "data/store.json"@,
        AppSettingsModel::defaults().master_key_env == "PERP_ARB_MASTER_KEY"@,
{
}

} // verus!
