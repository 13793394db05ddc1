//! Host element contracts: which relative source leaves each `Element/*`
//! producer can feed, and with which shape.
use vstd::prelude::*;
use crate::shape::{Shape, ShapeModel, false_true_model, key_tags_model};

verus! {

#[derive(Debug)]
pub struct HostSourceLeaf {
    pub relative_path: &'static str,
    pub shape: Shape,
}

#[derive(Debug)]
pub struct HostContract {
    pub function: &'static str,
    pub source_arg: &'static str,
    pub optional_leaves: Vec<HostSourceLeaf>,
}

/// The leaves of a contract as (relative path, shape) pairs.
pub open spec fn leaves_model(leaves: Seq<HostSourceLeaf>) -> Seq<(Seq<char>, ShapeModel)> {
    Seq::new(leaves.len(), |i: int| (leaves[i].relative_path@, leaves[i].shape@))
}

/// The position of the first leaf whose relative path is `path`.
pub open spec fn leaf_index(leaves: Seq<(Seq<char>, ShapeModel)>, path: Seq<char>) -> Option<int> {
    if exists|i: int| 0 <= i < leaves.len() && leaves[i].0 == path {
        Some(
            choose|i: int|
                0 <= i < leaves.len() && leaves[i].0 == path && forall|j: int|
                    0 <= j < i ==> leaves[j].0 != path,
        )
    } else {
        None
    }
}

/// The shape that a leaf list gives `path`, if it lists it.
pub open spec fn leaf_shape(leaves: Seq<(Seq<char>, ShapeModel)>, path: Seq<char>) -> Option<
    ShapeModel,
> {
    match leaf_index(leaves, path) {
        Some(i) => Some(leaves[i].1),
        None => None,
    }
}

/// The host functions that carry source contracts, in table order.
pub open spec fn contract_functions() -> Seq<Seq<char>> {
    seq![
        "Element/button"@,
        "Element/text_input"@,
        "Element/checkbox"@,
        "Element/label"@,
        "Element/grid"@,
    ]
}

/// The leaves of the `i`-th contract of the table.
pub open spec fn contract_leaves(i: int) -> Seq<(Seq<char>, ShapeModel)> {
    if i == 0 {
        seq![
            ("event.press"@, ShapeModel::EmptyRecord),
            ("hovered"@, false_true_model()),
            ("focused"@, false_true_model()),
        ]
    } else if i == 1 {
        seq![
            ("text"@, ShapeModel::Text),
            ("event.change"@, ShapeModel::EmptyRecord),
            ("event.key_down.key"@, key_tags_model()),
            ("event.blur"@, ShapeModel::EmptyRecord),
            ("event.focus"@, ShapeModel::EmptyRecord),
            ("focused"@, false_true_model()),
        ]
    } else if i == 2 {
        seq![
            ("event.click"@, ShapeModel::EmptyRecord),
            ("checked"@, false_true_model()),
            ("hovered"@, false_true_model()),
        ]
    } else if i == 3 {
        seq![
            ("event.tick"@, ShapeModel::EmptyRecord),
            ("event.frame"@, ShapeModel::EmptyRecord),
            ("event.key_down.key"@, key_tags_model()),
            ("event.double_click"@, ShapeModel::EmptyRecord),
            ("hovered"@, false_true_model()),
        ]
    } else {
        seq![("event.key_down.key"@, key_tags_model())]
    }
}

/// A list of contracts is the element contract table.
pub open spec fn is_contract_table(r: Seq<HostContract>) -> bool {
    &&& r.len() == 5
    &&& forall|i: int|
        0 <= i < 5 ==> {
            &&& (#[trigger] r[i]).function@ == contract_functions()[i]
            &&& r[i].source_arg@ == "element"@
            &&& leaves_model(r[i].optional_leaves@) == contract_leaves(i)
        }
}

/// The shape that the first contract accepting `path` gives it.
pub open spec fn table_shape_for(path: Seq<char>) -> Option<ShapeModel> {
    if leaf_shape(contract_leaves(0), path) is Some {
        leaf_shape(contract_leaves(0), path)
    } else if leaf_shape(contract_leaves(1), path) is Some {
        leaf_shape(contract_leaves(1), path)
    } else if leaf_shape(contract_leaves(2), path) is Some {
        leaf_shape(contract_leaves(2), path)
    } else if leaf_shape(contract_leaves(3), path) is Some {
        leaf_shape(contract_leaves(3), path)
    } else {
        leaf_shape(contract_leaves(4), path)
    }
}

impl HostContract {
    /// The shape that this contract gives the relative source path, if it
    /// lists it.
    pub fn accepts(&self, relative_path: &str) -> (r: Option<&Shape>)
        ensures
            match leaf_shape(leaves_model(self.optional_leaves@), relative_path@) {
                Some(m) => r matches Some(s) && s@ == m,
                None => r is None,
            },
    {
        let ghost lm = leaves_model(self.optional_leaves@);
        let target = crate::text::chars_of(relative_path);
        let mut i: usize = 0;
        while i < self.optional_leaves.len()
            invariant
                i <= self.optional_leaves@.len(),
                lm == leaves_model(self.optional_leaves@),
                target@ == relative_path@,
                forall|j: int| 0 <= j < i ==> lm[j].0 != relative_path@,
            decreases self.optional_leaves.len() - i,
        {
            let here = crate::text::chars_of(self.optional_leaves[i].relative_path);
            if crate::text::seq_eq(&here, &target) {
                proof {
                    assert(lm[i as int].0 == relative_path@);
                    let w = choose|w: int|
                        0 <= w < lm.len() && lm[w].0 == relative_path@ && forall|j: int|
                            0 <= j < w ==> lm[j].0 != relative_path@;
                    assert(w == i) by {
                        if w < i {
                            assert(lm[w].0 != relative_path@);
                        }
                        if w > i {
                            assert(lm[i as int].0 != relative_path@);
                        }
                    }
                }
                return Some(&self.optional_leaves[i].shape);
            }
            i += 1;
        }
        None
    }
}

fn leaf(relative_path: &'static str, shape: Shape) -> (r: HostSourceLeaf)
    ensures
        r.relative_path == relative_path,
        r.shape@ == shape@,
{
    HostSourceLeaf { relative_path, shape }
}

/// The element contract table.
pub fn element_contracts() -> (r: Vec<HostContract>)
    ensures
        is_contract_table(r@),
{
    let button = HostContract {
        function: "Element/button",
        source_arg: "element",
        optional_leaves: vec![
            leaf("event.press", Shape::EmptyRecord),
            leaf("hovered", Shape::tag_false_true()),
            leaf("focused", Shape::tag_false_true()),
        ],
    };
    assert(leaves_model(button.optional_leaves@) =~= contract_leaves(0));
    let text_input = HostContract {
        function: "Element/text_input",
        source_arg: "element",
        optional_leaves: vec![
            leaf("text", Shape::Text),
            leaf("event.change", Shape::EmptyRecord),
            leaf("event.key_down.key", Shape::key_tags()),
            leaf("event.blur", Shape::EmptyRecord),
            leaf("event.focus", Shape::EmptyRecord),
            leaf("focused", Shape::tag_false_true()),
        ],
    };
    assert(leaves_model(text_input.optional_leaves@) =~= contract_leaves(1));
    let checkbox = HostContract {
        function: "Element/checkbox",
        source_arg: "element",
        optional_leaves: vec![
            leaf("event.click", Shape::EmptyRecord),
            leaf("checked", Shape::tag_false_true()),
            leaf("hovered", Shape::tag_false_true()),
        ],
    };
    assert(leaves_model(checkbox.optional_leaves@) =~= contract_leaves(2));
    let label = HostContract {
        function: "Element/label",
        source_arg: "element",
        optional_leaves: vec![
            leaf("event.tick", Shape::EmptyRecord),
            leaf("event.frame", Shape::EmptyRecord),
            leaf("event.key_down.key", Shape::key_tags()),
            leaf("event.double_click", Shape::EmptyRecord),
            leaf("hovered", Shape::tag_false_true()),
        ],
    };
    assert(leaves_model(label.optional_leaves@) =~= contract_leaves(3));
    let grid = HostContract {
        function: "Element/grid",
        source_arg: "element",
        optional_leaves: vec![leaf("event.key_down.key", Shape::key_tags())],
    };
    assert(leaves_model(grid.optional_leaves@) =~= contract_leaves(4));
    let r = vec![button, text_input, checkbox, label, grid];
    assert(r@[0].function@ == contract_functions()[0]);
    r
}

/// The shape that the first element contract accepting `relative_path`
/// gives it.
pub fn shape_for_relative_source(relative_path: &str) -> (r: Option<Shape>)
    ensures
        match table_shape_for(relative_path@) {
            Some(m) => r matches Some(s) && s@ == m,
            None => r is None,
        },
{
    let contracts = element_contracts();
    let mut i: usize = 0;
    while i < contracts.len()
        invariant
            is_contract_table(contracts@),
            i <= 5,
            forall|j: int| 0 <= j < i ==> leaf_shape(contract_leaves(j), relative_path@) is None,
        decreases contracts.len() - i,
    {
        assert(leaves_model(contracts@[i as int].optional_leaves@) == contract_leaves(i as int));
        match contracts[i].accepts(relative_path) {
            Some(shape) => {
                return Some(shape.duplicate());
            },
            None => {},
        }
        i += 1;
    }
    None
}

} // verus!
