//! The paths under which the dashboard serves its pages and its streams.

use crate::model::{AppPage, SseTask};
use vstd::prelude::*;
use vstd::string::*;

verus! {

/// The path of the fragment that shows the output of a task on a resource.
pub open spec fn results_route(name: Seq<char>, task: SseTask) -> Seq<char> {
    "/components/shared/sse/"@ + name + "/"@ + task.name()
}

/// The path of the stream that carries the output of a task on a resource.
pub open spec fn connect_route(name: Seq<char>, task: SseTask) -> Seq<char> {
    "/components/shared/sse/connect/"@ + name + "/"@ + task.name()
}

/// The path of the fragment that shows the output of a task on a resource.
pub fn results_path(name: &str, task: SseTask) -> (path: String)
    ensures
        path@ == results_route(name@, task),
{
    "/components/shared/sse/".to_owned().concat(name).concat("/").concat(task.to_str())
}

/// The path of the stream that carries the output of a task on a resource.
pub fn connect_path(name: &str, task: SseTask) -> (path: String)
    ensures
        path@ == connect_route(name@, task),
{
    "/components/shared/sse/connect/".to_owned().concat(name).concat("/").concat(task.to_str())
}

impl AppPage {
    /// The path of a page.
    pub open spec fn route(self) -> Seq<char> {
        match self {
            AppPage::Index => "/"@,
            AppPage::Images => "/images"@,
        }
    }

    /// The path of the fragment that fills a page.
    pub open spec fn content_route(self) -> Seq<char> {
        match self {
            AppPage::Index => "/components/containers"@,
            AppPage::Images => "/components/images"@,
        }
    }

    /// The class of the link to `target` on this page: the link to the page
    /// itself is marked as current.
    pub open spec fn link_style(self, target: AppPage) -> Seq<char> {
        if self == target {
            "current"@
        } else {
            ""@
        }
    }

    /// The path of a page.
    pub fn path(&self) -> (path: &'static str)
        ensures
            path@ == self.route(),
    {
        match self {
            AppPage::Index => "/",
            AppPage::Images => "/images",
        }
    }

    /// The path of the fragment that fills a page.
    pub fn content_path(&self) -> (path: &'static str)
        ensures
            path@ == self.content_route(),
    {
        match self {
            AppPage::Index => "/components/containers",
            AppPage::Images => "/components/images",
        }
    }

    /// The class of the link to `target` on this page.
    pub fn link_class(&self, target: AppPage) -> (class: &'static str)
        ensures
            class@ == self.link_style(target),
    {
        if *self == target {
            "current"
        } else {
            ""
        }
    }
}

} // verus!
