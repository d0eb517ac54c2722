//! The user's settings: the stored record, its defaults, and how an update
//! is applied to it.

use vstd::prelude::*;
use crate::dto::{BgmAuth, UpdateSettingsData, spec_clean_double_option_string};
use crate::text::{is_blank, trim};

verus! {

/// The stored settings record; there is one, with id 1.
#[derive(Debug)]
pub struct UserSettings {
    pub id: i32,
    pub bgm_auth: Option<BgmAuth>,
    pub vndb_token: Option<String>,
    pub save_root_path: Option<String>,
    pub db_backup_path: Option<String>,
    pub le_path: Option<String>,
    pub magpie_path: Option<String>,
    pub webdav_url: Option<String>,
    pub webdav_username: Option<String>,
    pub webdav_password: Option<String>,
    pub webdav_root: Option<String>,
    pub webdav_sync_categories: Option<String>,
    pub webdav_enabled: Option<bool>,
}

/// The value after an update: the given value, or the old one when none was given.
pub open spec fn updated<T>(old: T, given: Option<T>) -> T {
    match given {
        Some(v) => v,
        None => old,
    }
}

impl UserSettings {
    /// The record created when none exists: id 1, nothing set.
    pub fn initial() -> (r: Self)
        ensures
            r.id == 1,
            r.bgm_auth is None,
            r.vndb_token is None,
            r.save_root_path is None,
            r.db_backup_path is None,
            r.le_path is None,
            r.magpie_path is None,
            r.webdav_url is None,
            r.webdav_username is None,
            r.webdav_password is None,
            r.webdav_root is None,
            r.webdav_sync_categories is None,
            r.webdav_enabled is None,
    {
        UserSettings {
            id: 1,
            bgm_auth: None,
            vndb_token: None,
            save_root_path: None,
            db_backup_path: None,
            le_path: None,
            magpie_path: None,
            webdav_url: None,
            webdav_username: None,
            webdav_password: None,
            webdav_root: None,
            webdav_sync_categories: None,
            webdav_enabled: None,
        }
    }

    /// WebDAV is switched on (an unset switch is off).
    pub fn webdav_enabled_value(&self) -> (r: bool)
        ensures
            r == (self.webdav_enabled == Some(true)),
    {
        match self.webdav_enabled {
            Some(b) => b,
            None => false,
        }
    }

    /// The cleaned update applied: every given field takes its cleaned value,
    /// every other field keeps its value. The id and the sync categories are
    /// never touched.
    pub fn apply_update(self, data: UpdateSettingsData) -> (r: Self)
        ensures
            r.id == self.id,
            r.webdav_sync_categories == self.webdav_sync_categories,
            match data.bgm_auth {
                Some(Some(a)) => match r.bgm_auth {
                    Some(c) => !is_blank(a.access_token@) && c.access_token@ == trim(a.access_token@),
                    None => is_blank(a.access_token@),
                },
                Some(None) => r.bgm_auth is None,
                None => r.bgm_auth == self.bgm_auth,
            },
            r.vndb_token == updated(self.vndb_token, spec_clean_double_option_string(data.vndb_token)),
            r.save_root_path == updated(
                self.save_root_path,
                spec_clean_double_option_string(data.save_root_path),
            ),
            r.db_backup_path == updated(
                self.db_backup_path,
                spec_clean_double_option_string(data.db_backup_path),
            ),
            r.le_path == updated(self.le_path, spec_clean_double_option_string(data.le_path)),
            r.magpie_path == updated(self.magpie_path, spec_clean_double_option_string(data.magpie_path)),
            r.webdav_url == updated(self.webdav_url, spec_clean_double_option_string(data.webdav_url)),
            r.webdav_username == updated(
                self.webdav_username,
                spec_clean_double_option_string(data.webdav_username),
            ),
            r.webdav_password == updated(
                self.webdav_password,
                spec_clean_double_option_string(data.webdav_password),
            ),
            r.webdav_root == updated(self.webdav_root, spec_clean_double_option_string(data.webdav_root)),
            r.webdav_enabled == updated(self.webdav_enabled, data.webdav_enabled),
    {
        let data = data.cleaned();
        let UserSettings {
            id,
            bgm_auth,
            vndb_token,
            save_root_path,
            db_backup_path,
            le_path,
            magpie_path,
            webdav_url,
            webdav_username,
            webdav_password,
            webdav_root,
            webdav_sync_categories,
            webdav_enabled,
        } = self;
        UserSettings {
            id,
            bgm_auth: match data.bgm_auth {
                Some(v) => v,
                None => bgm_auth,
            },
            vndb_token: match data.vndb_token {
                Some(v) => v,
                None => vndb_token,
            },
            save_root_path: match data.save_root_path {
                Some(v) => v,
                None => save_root_path,
            },
            db_backup_path: match data.db_backup_path {
                Some(v) => v,
                None => db_backup_path,
            },
            le_path: match data.le_path {
                Some(v) => v,
                None => le_path,
            },
            magpie_path: match data.magpie_path {
                Some(v) => v,
                None => magpie_path,
            },
            webdav_url: match data.webdav_url {
                Some(v) => v,
                None => webdav_url,
            },
            webdav_username: match data.webdav_username {
                Some(v) => v,
                None => webdav_username,
            },
            webdav_password: match data.webdav_password {
                Some(v) => v,
                None => webdav_password,
            },
            webdav_root: match data.webdav_root {
                Some(v) => v,
                None => webdav_root,
            },
            webdav_sync_categories,
            webdav_enabled: match data.webdav_enabled {
                Some(v) => v,
                None => webdav_enabled,
            },
        }
    }
}

} // verus!
