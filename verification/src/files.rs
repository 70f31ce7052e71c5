//! Request and response shapes of the file retrieval and save endpoints,
//! and the lookup step behind the single-file endpoint.

use vstd::prelude::*;
use crate::store::{get_file_spec, DocumentStore, FileView};

verus! {

/// An incoming save request: which file, and its full new content.
#[derive(Clone, Debug)]
pub struct SaveFileRequest {
    pub id: i32,
    pub content: String,
}

/// The response of the single-file endpoint.
#[derive(Clone, Debug)]
pub struct FileContentResponse {
    pub id: i32,
    pub name: String,
    pub content: String,
}

impl View for FileContentResponse {
    type V = FileView;

    open spec fn view(&self) -> FileView {
        FileView { id: self.id as int, name: self.name@, content: self.content@ }
    }
}

/// The compute step of the single-file endpoint: look the file up by id and
/// shape it as a response, or report that the id is absent.
pub fn file_content_response(store: &DocumentStore, file_id: i32) -> (r: Option<
    FileContentResponse,
>)
    ensures
        get_file_spec(
            store@,
            file_id as int,
            match r {
                Some(resp) => Some(resp@),
                None => None,
            },
        ),
{
    match store.get_file(file_id) {
        Some(f) => Some(FileContentResponse { id: f.id, name: f.name, content: f.content }),
        None => None,
    }
}

} // verus!
