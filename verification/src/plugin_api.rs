//! What plugins and the reader exchange: a plugin's configuration schema,
//! what it is asked to scrape and what it answers.
use vstd::prelude::*;

verus! {

/// One setting a plugin can be configured with.
#[derive(Debug, PartialEq)]
pub struct ConfigField {
    pub key: String,
    pub label: String,
    pub field_type: String,
    pub default: String,
}

impl Clone for ConfigField {
    fn clone(&self) -> (r: Self)
        ensures
            r == *self,
    {
        ConfigField {
            key: self.key.clone(),
            label: self.label.clone(),
            field_type: self.field_type.clone(),
            default: self.default.clone(),
        }
    }
}

/// The settings a plugin takes and whether it uses cookies.
#[derive(Debug, PartialEq)]
pub struct PluginSchema {
    pub fields: Vec<ConfigField>,
    pub accepts_cookies: bool,
}

/// What a plugin is asked to scrape.
#[derive(Debug, PartialEq)]
pub struct ScrapeInput {
    pub url: String,
    pub cookies: Option<String>,
    pub config: Option<String>,
}

/// A scraped book.
#[derive(Debug, PartialEq)]
pub struct ScrapeOutput {
    pub title: String,
    pub url: String,
    pub cover_url: Option<String>,
    pub description: Option<String>,
    pub total_chapters: u32,
    pub chapters: Vec<PluginChapter>,
}

/// A scraped chapter's text.
#[derive(Debug, PartialEq)]
pub struct ChapterOutput {
    pub title: String,
    pub content: String,
}

/// A chapter as a plugin lists it.
#[derive(Debug, PartialEq)]
pub struct PluginChapter {
    pub title: String,
    pub url: String,
    pub order: u32,
}

} // verus!
