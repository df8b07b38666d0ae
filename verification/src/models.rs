use vstd::prelude::*;

use crate::text::{trim, trim_str};

verus! {

/// The user's preferences.
#[derive(Debug, Clone)]
pub struct Settings {
    pub retention_days: Option<i64>,
    pub max_items: i64,
    pub shortcut: String,
    pub paused: bool,
    pub hide_after_copy: bool,
}

/// The global shortcut that opens the history window.
pub open spec fn default_shortcut() -> Seq<char> {
    "CommandOrControl+Shift+S"@
}

/// The shortcut that earlier versions used by default and that is now replaced.
pub open spec fn legacy_shortcut() -> Seq<char> {
    "CommandOrControl+Shift+V"@
}

/// The fewest entries that the history may be limited to.
pub const MIN_MAX_ITEMS: i64 = 25;

impl Settings {
    /// Whether `self` holds the default preferences.
    pub open spec fn is_default(&self) -> bool {
        &&& self.retention_days == Some(7i64)
        &&& self.max_items == 500
        &&& self.shortcut@ == default_shortcut()
        &&& !self.paused
        &&& self.hide_after_copy
    }

    /// A copy of `self`.
    pub fn duplicate(&self) -> (r: Settings)
        ensures
            r.retention_days == self.retention_days,
            r.max_items == self.max_items,
            r.shortcut@ == self.shortcut@,
            r.paused == self.paused,
            r.hide_after_copy == self.hide_after_copy,
    {
        Settings {
            retention_days: self.retention_days,
            max_items: self.max_items,
            shortcut: self.shortcut.clone(),
            paused: self.paused,
            hide_after_copy: self.hide_after_copy,
        }
    }
}

impl Default for Settings {
    fn default() -> (r: Settings)
        ensures
            r.is_default(),
    {
        Settings {
            retention_days: Some(7),
            max_items: 500,
            shortcut: String::from_str("CommandOrControl+Shift+S"),
            paused: false,
            hide_after_copy: true,
        }
    }
}

/// The default shortcut as a string.
pub fn default_shortcut_string() -> (r: String)
    ensures
        r@ == default_shortcut(),
{
    String::from_str("CommandOrControl+Shift+S")
}

/// The shortcut that `normalize_settings` keeps for the requested `shortcut`.
pub open spec fn normalized_shortcut(shortcut: Seq<char>) -> Seq<char> {
    if trim(shortcut).len() == 0 {
        trim(default_shortcut())
    } else {
        trim(shortcut)
    }
}

/// `settings` as they are saved: at least `MIN_MAX_ITEMS` entries kept, and the
/// shortcut trimmed, or the default one where only whitespace was given.
pub fn normalize_settings(settings: Settings) -> (r: Settings)
    ensures
        r.max_items == if settings.max_items < MIN_MAX_ITEMS {
            MIN_MAX_ITEMS
        } else {
            settings.max_items
        },
        r.shortcut@ == normalized_shortcut(settings.shortcut@),
        r.retention_days == settings.retention_days,
        r.paused == settings.paused,
        r.hide_after_copy == settings.hide_after_copy,
{
    let mut settings = settings;
    if settings.max_items < MIN_MAX_ITEMS {
        settings.max_items = MIN_MAX_ITEMS;
    }
    let trimmed = trim_str(settings.shortcut.as_str());
    if trimmed.as_str().is_empty() {
        settings.shortcut = default_shortcut_string();
    }
    settings.shortcut = trim_str(settings.shortcut.as_str());
    settings
}

/// Normalizing settings twice changes nothing more than normalizing them once:
/// the limit stays at least `MIN_MAX_ITEMS` and the shortcut stays as it is.
pub proof fn lemma_normalize_settings_idempotent(max_items: i64, shortcut: Seq<char>)
    ensures
        normalized_shortcut(normalized_shortcut(shortcut)) == normalized_shortcut(shortcut),
        ({
            let once = if max_items < MIN_MAX_ITEMS {
                MIN_MAX_ITEMS
            } else {
                max_items
            };
            (if once < MIN_MAX_ITEMS {
                MIN_MAX_ITEMS
            } else {
                once
            }) == once && once >= MIN_MAX_ITEMS
        }),
{
    crate::text::lemma_trim_idempotent(shortcut);
    crate::text::lemma_trim_idempotent(default_shortcut());
}

/// `settings` as loaded: the legacy default shortcut is replaced by the current
/// default.  The flag says whether anything changed, in which case the settings
/// are to be saved again.
pub fn upgrade_settings(settings: Settings) -> (r: (Settings, bool))
    ensures
        r.1 == (settings.shortcut@ == legacy_shortcut()),
        r.0.shortcut@ == if r.1 { default_shortcut() } else { settings.shortcut@ },
        r.0.max_items == settings.max_items,
        r.0.retention_days == settings.retention_days,
        r.0.paused == settings.paused,
        r.0.hide_after_copy == settings.hide_after_copy,
{
    let mut settings = settings;
    let legacy = String::from_str("CommandOrControl+Shift+V");
    if settings.shortcut == legacy {
        settings.shortcut = default_shortcut_string();
        (settings, true)
    } else {
        (settings, false)
    }
}

/// Where a copied item came from, as far as it could be found out.
#[derive(Debug, Clone)]
pub struct SourceMetadata {
    pub app_name: Option<String>,
    pub window_title: Option<String>,
    pub page_url: Option<String>,
    pub page_title: Option<String>,
    pub domain: Option<String>,
}

/// The view of an optional string.
pub open spec fn opt_view(o: Option<String>) -> Option<Seq<char>> {
    match o {
        Some(s) => Some(s@),
        None => None,
    }
}

/// The view of a result of bytes or a message.
pub open spec fn result_view(r: Result<Vec<u8>, String>) -> Result<Seq<u8>, Seq<char>> {
    match r {
        Ok(v) => Ok(v@),
        Err(e) => Err(e@),
    }
}

/// A copy of `o`.
pub fn copy_opt(o: &Option<String>) -> (r: Option<String>)
    ensures
        r == *o,
{
    match o {
        Some(s) => Some(s.clone()),
        None => None,
    }
}

impl SourceMetadata {
    /// Whether nothing is known of the source.
    pub open spec fn is_unknown(&self) -> bool {
        &&& self.app_name is None
        &&& self.window_title is None
        &&& self.page_url is None
        &&& self.page_title is None
        &&& self.domain is None
    }

    /// A copy of `self`.
    pub fn duplicate(&self) -> (r: SourceMetadata)
        ensures
            r == *self,
    {
        SourceMetadata {
            app_name: copy_opt(&self.app_name),
            window_title: copy_opt(&self.window_title),
            page_url: copy_opt(&self.page_url),
            page_title: copy_opt(&self.page_title),
            domain: copy_opt(&self.domain),
        }
    }
}

impl Default for SourceMetadata {
    fn default() -> (r: SourceMetadata)
        ensures
            r.is_unknown(),
    {
        SourceMetadata {
            app_name: None,
            window_title: None,
            page_url: None,
            page_title: None,
            domain: None,
        }
    }
}

/// A clipboard entry about to be stored.
#[derive(Debug, Clone)]
pub struct NewClipboardItem {
    pub kind: String,
    pub content: String,
    pub url: Option<String>,
    pub domain: Option<String>,
    pub title: Option<String>,
    pub source: SourceMetadata,
    pub hash: String,
    pub blob: Option<Vec<u8>>,
    pub thumb: Option<Vec<u8>>,
}

/// A stored clipboard entry as the history window shows it.
#[derive(Debug, Clone)]
pub struct ClipboardItem {
    pub id: i64,
    pub kind: String,
    pub content: String,
    pub url: Option<String>,
    pub domain: Option<String>,
    pub title: Option<String>,
    pub source_app: Option<String>,
    pub source_url: Option<String>,
    pub source_title: Option<String>,
    pub source_domain: Option<String>,
    pub created_at: i64,
    pub thumb_data_url: Option<String>,
}

} // verus!
