//! The routes: each one runs a request past the guard, calls one
//! repository, and phrases the answer as a status and a body.
//!
//! A route takes the bearer token as the request carried it (or `None`),
//! the payload already decoded, and the current time in Unix seconds. A
//! request that is turned away leaves the store as it was.

use vstd::prelude::*;
use crate::error::{ApiError, AuthError};
use crate::model::category::{Category, CategoryView};
use crate::model::label::{Label, LabelView};
use crate::model::note::{Note, NoteView};
use crate::model::note_category::NoteCategory;
use crate::model::note_label::NoteLabel;
use crate::model::store::views;
use crate::text::opt_text;

pub mod categories;
pub mod labels;
pub mod notes;
pub mod users;

verus! {

/// What a response carries.
#[derive(Debug)]
pub enum Body {
    /// Plain text.
    Text(String),
    /// The answer to a registration or a login.
    Message { code: String, message: String, token: Option<String> },
    Note(Note),
    Notes(Vec<Note>),
    Label(Label),
    Labels(Vec<Label>),
    Category(Category),
    Categories(Vec<Category>),
    NoteLabel(NoteLabel),
    NoteCategory(NoteCategory),
    /// Why the request failed.
    Failure(ApiError),
}

/// The content of a [`Body`].
pub enum BodyView {
    Text(Seq<char>),
    Message { code: Seq<char>, message: Seq<char>, token: Option<Seq<char>> },
    Note(NoteView),
    Notes(Seq<NoteView>),
    Label(LabelView),
    Labels(Seq<LabelView>),
    Category(CategoryView),
    Categories(Seq<CategoryView>),
    NoteLabel(NoteLabel),
    NoteCategory(NoteCategory),
    Failure(ApiError),
}

impl View for Body {
    type V = BodyView;

    open spec fn view(&self) -> BodyView {
        match *self {
            Body::Text(text) => BodyView::Text(text@),
            Body::Message { code, message, token } => BodyView::Message {
                code: code@,
                message: message@,
                token: opt_text(token),
            },
            Body::Note(note) => BodyView::Note(note@),
            Body::Notes(notes) => BodyView::Notes(views(notes@)),
            Body::Label(label) => BodyView::Label(label@),
            Body::Labels(labels) => BodyView::Labels(views(labels@)),
            Body::Category(category) => BodyView::Category(category@),
            Body::Categories(categories) => BodyView::Categories(views(categories@)),
            Body::NoteLabel(edge) => BodyView::NoteLabel(edge),
            Body::NoteCategory(edge) => BodyView::NoteCategory(edge),
            Body::Failure(e) => BodyView::Failure(e),
        }
    }
}

/// An HTTP response: the status and the body, not yet serialised.
#[derive(Debug)]
pub struct Response {
    pub status: u16,
    pub body: Body,
}

/// The content of a [`Response`].
pub struct ResponseView {
    pub status: u16,
    pub body: BodyView,
}

impl View for Response {
    type V = ResponseView;

    open spec fn view(&self) -> ResponseView {
        ResponseView { status: self.status, body: self.body@ }
    }
}

/// The response to a request that the guard turned away: always 401.
pub open spec fn denied(e: AuthError) -> ResponseView {
    ResponseView { status: 401, body: BodyView::Failure(ApiError::Auth(e)) }
}

/// The response that reports a failure, under the status of its kind.
pub open spec fn failed(e: ApiError) -> ResponseView {
    ResponseView { status: e.spec_status(), body: BodyView::Failure(e) }
}

/// The response that carries `body` under `status`.
pub open spec fn answered(status: u16, body: BodyView) -> ResponseView {
    ResponseView { status: status, body: body }
}

/// The response to a request that the guard turned away.
pub fn deny(e: AuthError) -> (r: Response)
    ensures
        r@ == denied(e),
{
    Response { status: 401, body: Body::Failure(ApiError::Auth(e)) }
}

/// The response that reports a failure.
pub fn fail(e: ApiError) -> (r: Response)
    ensures
        r@ == failed(e),
{
    Response { status: e.status(), body: Body::Failure(e) }
}

/// The greeting of the service.
pub fn root() -> (r: Response)
    ensures
        r@ == answered(200, BodyView::Text("Hello world, Rust!"@)),
{
    Response { status: 200, body: Body::Text("Hello world, Rust!".to_owned()) }
}

} // verus!
