//! Sample labels, as the interface description shows them.

use vstd::prelude::*;
use vstd::string::*;
use crate::model::label::{Label, LabelView};
use crate::model::store::views;

verus! {

/// A list of labels, as a response body.
#[derive(Debug)]
pub struct Labels {
    pub labels: Vec<Label>,
}

/// The four sample labels: `Label 1` to `Label 4`, numbered from one.
pub open spec fn sample_labels() -> Seq<LabelView> {
    seq![
        LabelView { id: 1, name: "Label 1"@ },
        LabelView { id: 2, name: "Label 2"@ },
        LabelView { id: 3, name: "Label 3"@ },
        LabelView { id: 4, name: "Label 4"@ },
    ]
}

/// The sample answer to a request for every label.
pub fn get_all_labels() -> (r: Vec<Label>)
    ensures
        views(r@) == sample_labels(),
{
    let mut labels: Vec<Label> = Vec::new();
    labels.push(Label { id: 1, name: "Label 1".to_owned() });
    labels.push(Label { id: 2, name: "Label 2".to_owned() });
    labels.push(Label { id: 3, name: "Label 3".to_owned() });
    labels.push(Label { id: 4, name: "Label 4".to_owned() });
    assert(views(labels@) =~= sample_labels());
    labels
}

/// The sample answer to a request for the label `label_id`.
pub fn get_label_by_id(label_id: i32) -> (r: Label)
    ensures
        r@ == (LabelView { id: label_id, name: "Sample label"@ }),
{
    Label { id: label_id, name: "Sample label".to_owned() }
}

} // verus!
