//! The papers that are read, each as either kind of device stores it.

use vstd::prelude::*;
use crate::article::{Config, ConfigText};

verus! {

/// The kind of device whose reader applications hold the databases.
#[derive(Debug, Clone, Copy, PartialEq, Eq)]
pub enum Device {
    Android,
    Ipad,
}

/// Name of the first paper.
pub const POLITIKEN: &'static str = "Politiken";

/// Name of the second paper.
pub const INFORMATION: &'static str = "Information";

/// The phone application of Politiken.
pub const ANDROID_POLITIKEN_APP: &'static str = "dk.politiken.reader";

/// Its article query.
pub const ANDROID_POLITIKEN_SELECT: &'static str =
    "SELECT title, byline, blurb, content FROM articles WHERE refid LIKE ?";

/// The phone application of Information.
pub const ANDROID_INFORMATION_APP: &'static str = "dk.information.areader";

/// Its article query; bylines stand in a table of their own.
pub const ANDROID_INFORMATION_SELECT: &'static str =
    "SELECT title, author AS byline, blurb, content FROM articles LEFT JOIN byline ON articles.article_id == byline.article_id WHERE refid LIKE ?";

/// The latest-identifier query of both phone applications.
pub const ANDROID_REFID: &'static str =
    "SELECT refid FROM articles ORDER BY article_id DESC LIMIT 1";

/// The tablet application of Politiken.
pub const IPAD_POLITIKEN_APP: &'static str = "4C1B6602-BAFD-4582-8A9F-1B956C8C4D93";

/// Its article query.
pub const IPAD_POLITIKEN_SELECT: &'static str =
    "SELECT ZTITLE AS title, ZBYLINE AS byline, ZBLURB AS blurb, ZCONTENT AS content FROM ZARTICLE WHERE ZREFID LIKE ? ORDER BY ZORIGINPAGE, ZREFID";

/// The tablet application of Information.
pub const IPAD_INFORMATION_APP: &'static str = "9597F96C-52F4-4467-8D6F-5CC515FACE1E";

/// Its article query; bylines stand in a table of their own.
pub const IPAD_INFORMATION_SELECT: &'static str =
    "SELECT ZTITLE AS title, ZAUTHOR AS byline, ZBLURB AS blurb, ZCONTENT AS content FROM ZARTICLE LEFT JOIN ZBYLINE ON ZARTICLE.Z_PK == ZBYLINE.ZARTICLE WHERE ZREFID LIKE ? ORDER BY ZORIGINPAGE, ZREFID";

/// The latest-identifier query of both tablet applications.
pub const IPAD_REFID: &'static str = "SELECT ZREFID AS refid FROM ZARTICLE ORDER BY Z_PK DESC LIMIT 1";

/// What a list of source definitions holds, as plain character sequences.
pub open spec fn config_texts(configs: Seq<Config>) -> Seq<ConfigText> {
    Seq::new(configs.len(), |i: int| configs[i]@)
}

/// The papers as a device of the given kind stores them: first Politiken,
/// then Information, each with the application that holds it and its two
/// queries. On the tablet the article query orders by page and identifier.
pub open spec fn source_texts(device: Device) -> Seq<ConfigText> {
    match device {
        Device::Android => seq![
            ConfigText {
                name: POLITIKEN@,
                app_id: ANDROID_POLITIKEN_APP@,
                select_stmt: ANDROID_POLITIKEN_SELECT@,
                refid_stmt: ANDROID_REFID@,
            },
            ConfigText {
                name: INFORMATION@,
                app_id: ANDROID_INFORMATION_APP@,
                select_stmt: ANDROID_INFORMATION_SELECT@,
                refid_stmt: ANDROID_REFID@,
            },
        ],
        Device::Ipad => seq![
            ConfigText {
                name: POLITIKEN@,
                app_id: IPAD_POLITIKEN_APP@,
                select_stmt: IPAD_POLITIKEN_SELECT@,
                refid_stmt: IPAD_REFID@,
            },
            ConfigText {
                name: INFORMATION@,
                app_id: IPAD_INFORMATION_APP@,
                select_stmt: IPAD_INFORMATION_SELECT@,
                refid_stmt: IPAD_REFID@,
            },
        ],
    }
}

/// The papers to read from a device of the given kind, in the order in which
/// they are processed.
pub fn sources(device: Device) -> (configs: Vec<Config>)
    ensures
        config_texts(configs@) == source_texts(device),
{
    let mut configs: Vec<Config> = Vec::new();
    match device {
        Device::Android => {
            configs.push(
                Config::new(
                    POLITIKEN,
                    ANDROID_POLITIKEN_APP,
                    ANDROID_POLITIKEN_SELECT,
                    ANDROID_REFID,
                ),
            );
            configs.push(
                Config::new(
                    INFORMATION,
                    ANDROID_INFORMATION_APP,
                    ANDROID_INFORMATION_SELECT,
                    ANDROID_REFID,
                ),
            );
        },
        Device::Ipad => {
            configs.push(
                Config::new(POLITIKEN, IPAD_POLITIKEN_APP, IPAD_POLITIKEN_SELECT, IPAD_REFID),
            );
            configs.push(
                Config::new(INFORMATION, IPAD_INFORMATION_APP, IPAD_INFORMATION_SELECT, IPAD_REFID),
            );
        },
    }
    proof {
        assert(config_texts(configs@) =~= source_texts(device));
    }
    configs
}

} // verus!
