//! The documents of a project, and what each of them is to the contracts:
//! a value made of texts and sequences.

use crate::text::string_texts;
use std::collections::HashMap;
use vstd::prelude::*;

verus! {

/// `serde_json::Value`, the open structured value that a block carries
/// for the renderer. Nothing here looks inside it.
#[verifier::external_type_specification]
#[verifier::external_body]
pub struct ExJsonValue(serde_json::Value);

/// What a project directory records of its project.
#[derive(Clone, Debug, PartialEq)]
pub struct ProjectMetadata {
    pub name: String,
    pub slug: String,
    pub site_url: String,
    pub created_at: String,
    pub updated_at: String,
}

/// A project as it is listed: its metadata together with where it lies.
#[derive(Clone, Debug, PartialEq)]
pub struct ProjectRecord {
    pub id: String,
    pub name: String,
    pub path: String,
    pub updated_at: String,
    pub site_url: String,
}

/// The site of a document: its name and the address that it is served
/// under.
#[derive(Clone, Debug, PartialEq)]
pub struct SiteDoc {
    pub site_name: String,
    pub base_url: String,
}

/// The sitemap of a document: the order of its pages, and its root page.
#[derive(Clone, Debug, PartialEq)]
pub struct SitemapDoc {
    pub page_order: Vec<String>,
    pub root_page_id: String,
}

/// What a page tells search engines of itself.
#[derive(Clone, Debug, PartialEq)]
pub struct PageSeoDoc {
    pub title: String,
    pub description: String,
}

/// The styles that a block sets for itself.
#[derive(Debug, PartialEq)]
pub struct BlockStyleDoc {
    pub variant: String,
    pub margin_top: Option<String>,
    pub margin_bottom: Option<String>,
    pub padding_top: Option<String>,
    pub padding_right: Option<String>,
    pub padding_bottom: Option<String>,
    pub padding_left: Option<String>,
    pub border_width: Option<String>,
    pub border_style: Option<String>,
    pub border_color: Option<String>,
    pub border_radius: Option<String>,
    pub background_color: Option<String>,
    pub text_color: Option<String>,
    pub font_size: Option<String>,
    pub primitive_styles: Option<HashMap<String, HashMap<String, String>>>,
}

/// One block of a page. Its content is the renderer's business: the
/// library carries blocks along and never reads them.
#[derive(Debug, PartialEq)]
pub struct BlockDoc {
    pub id: String,
    pub block_type: String,
    pub props: serde_json::Value,
    pub visibility: String,
    pub style_overrides: BlockStyleDoc,
}

/// One page of a document. Its id is derived from its route.
#[derive(Debug, PartialEq)]
pub struct PageDoc {
    pub id: String,
    pub title: String,
    pub route: String,
    pub seo: PageSeoDoc,
    pub blocks: Vec<BlockDoc>,
}

/// The whole editable document of one project.
#[derive(Debug, PartialEq)]
pub struct BuilderProjectDoc {
    pub site: SiteDoc,
    pub sitemap: SitemapDoc,
    pub pages: Vec<PageDoc>,
    pub selected_page_id: String,
}

/// The metadata of a project as texts.
pub struct ProjectMetadataView {
    pub name: Seq<char>,
    pub slug: Seq<char>,
    pub site_url: Seq<char>,
    pub created_at: Seq<char>,
    pub updated_at: Seq<char>,
}

/// The record of a project as texts.
pub struct ProjectRecordView {
    pub id: Seq<char>,
    pub name: Seq<char>,
    pub path: Seq<char>,
    pub updated_at: Seq<char>,
    pub site_url: Seq<char>,
}

/// The site of a document as texts.
pub struct SiteView {
    pub site_name: Seq<char>,
    pub base_url: Seq<char>,
}

/// The sitemap of a document as texts.
pub struct SitemapView {
    pub page_order: Seq<Seq<char>>,
    pub root_page_id: Seq<char>,
}

/// What a page tells search engines, as texts.
pub struct SeoView {
    pub title: Seq<char>,
    pub description: Seq<char>,
}

/// A page as texts, with its blocks as they are.
pub struct PageView {
    pub id: Seq<char>,
    pub title: Seq<char>,
    pub route: Seq<char>,
    pub seo: SeoView,
    pub blocks: Seq<BlockDoc>,
}

/// A document as texts and sequences: what the contracts speak of.
pub struct DocView {
    pub site: SiteView,
    pub sitemap: SitemapView,
    pub pages: Seq<PageView>,
    pub selected_page_id: Seq<char>,
}

impl View for ProjectMetadata {
    type V = ProjectMetadataView;

    open spec fn view(&self) -> ProjectMetadataView {
        ProjectMetadataView {
            name: self.name@,
            slug: self.slug@,
            site_url: self.site_url@,
            created_at: self.created_at@,
            updated_at: self.updated_at@,
        }
    }
}

impl View for ProjectRecord {
    type V = ProjectRecordView;

    open spec fn view(&self) -> ProjectRecordView {
        ProjectRecordView {
            id: self.id@,
            name: self.name@,
            path: self.path@,
            updated_at: self.updated_at@,
            site_url: self.site_url@,
        }
    }
}

impl View for SiteDoc {
    type V = SiteView;

    open spec fn view(&self) -> SiteView {
        SiteView { site_name: self.site_name@, base_url: self.base_url@ }
    }
}

impl View for SitemapDoc {
    type V = SitemapView;

    open spec fn view(&self) -> SitemapView {
        SitemapView {
            page_order: string_texts(self.page_order@),
            root_page_id: self.root_page_id@,
        }
    }
}

impl View for PageSeoDoc {
    type V = SeoView;

    open spec fn view(&self) -> SeoView {
        SeoView { title: self.title@, description: self.description@ }
    }
}

impl View for PageDoc {
    type V = PageView;

    open spec fn view(&self) -> PageView {
        PageView {
            id: self.id@,
            title: self.title@,
            route: self.route@,
            seo: self.seo@,
            blocks: self.blocks@,
        }
    }
}

impl View for BuilderProjectDoc {
    type V = DocView;

    open spec fn view(&self) -> DocView {
        DocView {
            site: self.site@,
            sitemap: self.sitemap@,
            pages: page_views(self.pages@),
            selected_page_id: self.selected_page_id@,
        }
    }
}

/// The views of a list of pages, in order.
pub open spec fn page_views(pages: Seq<PageDoc>) -> Seq<PageView> {
    pages.map_values(|page: PageDoc| page@)
}

/// The views of a list of project records, in order.
pub open spec fn record_views(records: Seq<ProjectRecord>) -> Seq<ProjectRecordView> {
    records.map_values(|record: ProjectRecord| record@)
}

/// The ids of a list of pages, in order.
pub open spec fn ids_of(pages: Seq<PageView>) -> Seq<Seq<char>> {
    pages.map_values(|page: PageView| page.id)
}

/// The routes of a list of pages, in order.
pub open spec fn routes_of(pages: Seq<PageView>) -> Seq<Seq<char>> {
    pages.map_values(|page: PageView| page.route)
}

} // verus!
