//! Value shapes: what a host source or a Boon value may hold.
use vstd::prelude::*;

verus! {

#[derive(Debug)]
pub enum Shape {
    Unknown,
    EmptyRecord,
    Record(Vec<(String, Shape)>),
    List(Box<Shape>),
    Text,
    Number,
    TagSet(Vec<String>),
    Function,
    SourceMarker,
    Skip,
    Union(Vec<Shape>),
}

/// The mathematical value of a [`Shape`]: the same tree with sequences for
/// vectors and character sequences for strings.
pub enum ShapeModel {
    Unknown,
    EmptyRecord,
    Record(Seq<(Seq<char>, ShapeModel)>),
    List(Box<ShapeModel>),
    Text,
    Number,
    TagSet(Seq<Seq<char>>),
    Function,
    SourceMarker,
    Skip,
    Union(Seq<ShapeModel>),
}

pub open spec fn shape_model(s: Shape) -> ShapeModel
    decreases s,
{
    match s {
        Shape::Unknown => ShapeModel::Unknown,
        Shape::EmptyRecord => ShapeModel::EmptyRecord,
        Shape::Record(fields) => ShapeModel::Record(
            Seq::new(
                fields@.len(),
                |i: int|
                    if 0 <= i < fields@.len() {
                        (fields@[i].0@, shape_model(fields@[i].1))
                    } else {
                        (Seq::empty(), ShapeModel::Unknown)
                    },
            ),
        ),
        Shape::List(inner) => ShapeModel::List(Box::new(shape_model(*inner))),
        Shape::Text => ShapeModel::Text,
        Shape::Number => ShapeModel::Number,
        Shape::TagSet(tags) => ShapeModel::TagSet(
            Seq::new(tags@.len(), |i: int| tags@[i]@),
        ),
        Shape::Function => ShapeModel::Function,
        Shape::SourceMarker => ShapeModel::SourceMarker,
        Shape::Skip => ShapeModel::Skip,
        Shape::Union(alts) => ShapeModel::Union(
            Seq::new(
                alts@.len(),
                |i: int|
                    if 0 <= i < alts@.len() {
                        shape_model(alts@[i])
                    } else {
                        ShapeModel::Unknown
                    },
            ),
        ),
    }
}

impl View for Shape {
    type V = ShapeModel;

    open spec fn view(&self) -> ShapeModel {
        shape_model(*self)
    }
}

/// The tag set `[False, True]`.
pub open spec fn false_true_model() -> ShapeModel {
    ShapeModel::TagSet(seq!["False"@, "True"@])
}

/// The tag set of keyboard keys that hosts report.
pub open spec fn key_tags_model() -> ShapeModel {
    ShapeModel::TagSet(
        seq![
            "Enter"@,
            "Escape"@,
            "Backspace"@,
            "Character"@,
            "ArrowUp"@,
            "ArrowDown"@,
            "ArrowLeft"@,
            "ArrowRight"@,
        ],
    )
}

/// The name of a shape's variant.
pub open spec fn shape_label(s: ShapeModel) -> Seq<char> {
    match s {
        ShapeModel::Unknown => "Unknown"@,
        ShapeModel::EmptyRecord => "EmptyRecord"@,
        ShapeModel::Record(_) => "Record"@,
        ShapeModel::List(_) => "List"@,
        ShapeModel::Text => "Text"@,
        ShapeModel::Number => "Number"@,
        ShapeModel::TagSet(_) => "TagSet"@,
        ShapeModel::Function => "Function"@,
        ShapeModel::SourceMarker => "SourceMarker"@,
        ShapeModel::Skip => "Skip"@,
        ShapeModel::Union(_) => "Union"@,
    }
}

impl Shape {
    /// The tag set `[False, True]`.
    pub fn tag_false_true() -> (r: Shape)
        ensures
            r@ == false_true_model(),
    {
        let items = vec!["False".to_owned(), "True".to_owned()];
        assert(items@.len() == 2);
        assert(items@[0]@ == "False"@);
        let ghost names = items@;
        let r = Shape::TagSet(items);
        assert(Seq::new(names.len(), |i: int| names[i]@) =~= seq!["False"@, "True"@]);
        assert(r@ == false_true_model());
        r
    }

    /// The tag set of keyboard keys.
    pub fn key_tags() -> (r: Shape)
        ensures
            r@ == key_tags_model(),
    {
        let items = vec![
            "Enter".to_owned(),
            "Escape".to_owned(),
            "Backspace".to_owned(),
            "Character".to_owned(),
            "ArrowUp".to_owned(),
            "ArrowDown".to_owned(),
            "ArrowLeft".to_owned(),
            "ArrowRight".to_owned(),
        ];
        let ghost names = items@;
        let r = Shape::TagSet(items);
        assert(Seq::new(names.len(), |i: int| names[i]@) =~= seq![
            "Enter"@,
            "Escape"@,
            "Backspace"@,
            "Character"@,
            "ArrowUp"@,
            "ArrowDown"@,
            "ArrowLeft"@,
            "ArrowRight"@,
        ]);
        assert(r@ == key_tags_model());
        r
    }

    /// The name of the shape's variant.
    pub fn label(&self) -> (r: &'static str)
        ensures
            r@ == shape_label(self@),
    {
        match self {
            Shape::Unknown => "Unknown",
            Shape::EmptyRecord => "EmptyRecord",
            Shape::Record(_) => "Record",
            Shape::List(_) => "List",
            Shape::Text => "Text",
            Shape::Number => "Number",
            Shape::TagSet(_) => "TagSet",
            Shape::Function => "Function",
            Shape::SourceMarker => "SourceMarker",
            Shape::Skip => "Skip",
            Shape::Union(_) => "Union",
        }
    }

    /// A copy of the shape.
    #[verifier::loop_isolation(false)]
    pub fn duplicate(&self) -> (r: Shape)
        ensures
            r@ == self@,
        decreases self,
    {
        match self {
            Shape::Unknown => Shape::Unknown,
            Shape::EmptyRecord => Shape::EmptyRecord,
            Shape::Record(fields) => {
                let mut out: Vec<(String, Shape)> = Vec::new();
                let mut i: usize = 0;
                while i < fields.len()
                    invariant
                        i <= fields@.len(),
                        out@.len() == i,
                        forall|k: int|
                            0 <= k < i ==> (#[trigger] out@[k]).0@ == fields@[k].0@
                                && shape_model(out@[k].1) == shape_model(fields@[k].1),
                    decreases fields.len() - i,
                {
                    let name = fields[i].0.clone();
                    proof {
                        assert(decreases_to!(*self => (*self)->Record_0));
                        assert(decreases_to!(fields => fields@));
                        assert(decreases_to!(fields@ => fields@[i as int]));
                        assert(decreases_to!(fields@[i as int] => fields@[i as int].1));
                    }
                    let inner = fields[i].1.duplicate();
                    out.push((name, inner));
                    i += 1;
                }
                let r = Shape::Record(out);
                assert(r@->Record_0 =~= self@->Record_0);
                r
            },
            Shape::List(inner) => {
                let r = Shape::List(Box::new(inner.duplicate()));
                r
            },
            Shape::Text => Shape::Text,
            Shape::Number => Shape::Number,
            Shape::TagSet(tags) => {
                let mut out: Vec<String> = Vec::new();
                let mut i: usize = 0;
                while i < tags.len()
                    invariant
                        i <= tags@.len(),
                        out@.len() == i,
                        forall|k: int| 0 <= k < i ==> (#[trigger] out@[k])@ == tags@[k]@,
                    decreases tags.len() - i,
                {
                    out.push(tags[i].clone());
                    i += 1;
                }
                let r = Shape::TagSet(out);
                assert(r@->TagSet_0 =~= self@->TagSet_0);
                r
            },
            Shape::Function => Shape::Function,
            Shape::SourceMarker => Shape::SourceMarker,
            Shape::Skip => Shape::Skip,
            Shape::Union(alts) => {
                let mut out: Vec<Shape> = Vec::new();
                let mut i: usize = 0;
                while i < alts.len()
                    invariant
                        i <= alts@.len(),
                        out@.len() == i,
                        forall|k: int|
                            0 <= k < i ==> shape_model(#[trigger] out@[k]) == shape_model(
                                alts@[k],
                            ),
                    decreases alts.len() - i,
                {
                    proof {
                        assert(decreases_to!(*self => (*self)->Union_0));
                        assert(decreases_to!(alts => alts@));
                        assert(decreases_to!(alts@ => alts@[i as int]));
                    }
                    out.push(alts[i].duplicate());
                    i += 1;
                }
                let r = Shape::Union(out);
                assert(r@->Union_0 =~= self@->Union_0);
                r
            },
        }
    }

    /// Whether the shape is plain text.
    pub fn is_text(&self) -> (r: bool)
        ensures
            r == (self@ is Text),
    {
        match self {
            Shape::Text => true,
            _ => false,
        }
    }

    /// Whether the shape is the empty record.
    pub fn is_empty_record(&self) -> (r: bool)
        ensures
            r == (self@ is EmptyRecord),
    {
        match self {
            Shape::EmptyRecord => true,
            _ => false,
        }
    }
}

} // verus!
