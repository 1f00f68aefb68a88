//! Annotations that the tokenizers attach to ranges of the source text.
use vstd::prelude::*;

verus! {

/// Composite annotations: each opens with `Add` and closes with `Sub`.
#[derive(Debug, Clone, Copy, PartialEq, Eq, Structural, PartialOrd, Ord, Hash)]
pub enum Comp {
    Doc,
    Verbatim,
    Email,
    Url,
    Subscript,
    Superscript,
    Para,
    CodeBlock,
    Imagetext,
    Linktext,
    Reference,
    Destination,
    Emph,
    Strong,
    Span,
    DoubleQuoted,
    ReferenceDefinition,
    Insert,
    Delete,
    Mark,
    Attributes,
}

/// Atomic annotations.
#[derive(Debug, Clone, Copy, PartialEq, Eq, Structural, PartialOrd, Ord, Hash)]
pub enum Atom {
    Str,
    Escape,
    Hardbreak,
    Nbsp,
    Blankline,
    ImageMarker,
    LeftDoubleQuote,
    RightDoubleQuote,
    Ellipses,
    Softbreak,
    FootnoteReference,
    OpenMarker,
    Emoji,
    ReferenceKey,
    ReferenceValue,
    CodeLanguage,
    EmDash,
    EnDash,
    Id,
    Key,
    Value,
    Class,
}

#[derive(Debug, Clone, Copy, PartialEq, Eq, Structural, PartialOrd, Ord, Hash)]
pub enum Annot {
    Atom(Atom),
    Add(Comp),
    Sub(Comp),
}

impl From<Atom> for Annot {
    fn from(value: Atom) -> (r: Annot) {
        Annot::Atom(value)
    }
}

impl vstd::std_specs::convert::FromSpecImpl<Atom> for Annot {
    open spec fn obeys_from_spec() -> bool {
        true
    }

    open spec fn from_spec(v: Atom) -> Annot {
        Annot::Atom(v)
    }
}

/// The atoms that open a left/right pair.
pub open spec fn spec_is_left_atom(a: Atom) -> bool {
    a == Atom::LeftDoubleQuote
}

/// The atoms that close a left/right pair.
pub open spec fn spec_is_right_atom(a: Atom) -> bool {
    a == Atom::RightDoubleQuote
}

/// The name of an atom as text.
pub open spec fn atom_name(a: Atom) -> Seq<char> {
    match a {
        Atom::Str => "str"@,
        Atom::Escape => "escape"@,
        Atom::Hardbreak => "hardbreak"@,
        Atom::Nbsp => "nbsp"@,
        Atom::Blankline => "blankline"@,
        Atom::ImageMarker => "image_marker"@,
        Atom::LeftDoubleQuote => "left_double_quote"@,
        Atom::RightDoubleQuote => "right_double_quote"@,
        Atom::Ellipses => "ellipses"@,
        Atom::Softbreak => "softbreak"@,
        Atom::FootnoteReference => "footnote_reference"@,
        Atom::OpenMarker => "open_marker"@,
        Atom::Emoji => "emoji"@,
        Atom::ReferenceKey => "reference_key"@,
        Atom::ReferenceValue => "reference_value"@,
        Atom::CodeLanguage => "code_language"@,
        Atom::EmDash => "em_dash"@,
        Atom::EnDash => "en_dash"@,
        Atom::Id => "id"@,
        Atom::Key => "key"@,
        Atom::Value => "value"@,
        Atom::Class => "class"@,
    }
}

impl Atom {
    pub fn is_left_atom(self) -> (r: bool)
        ensures
            r == spec_is_left_atom(self),
    {
        matches!(self, Atom::LeftDoubleQuote)
    }

    pub fn is_right_atom(self) -> (r: bool)
        ensures
            r == spec_is_right_atom(self),
    {
        matches!(self, Atom::RightDoubleQuote)
    }

    /// The left atom of the pair a right atom closes; any other atom is its own.
    pub fn corresponding_left_atom(self) -> (r: Atom)
        ensures
            r == (if self == Atom::RightDoubleQuote {
                Atom::LeftDoubleQuote
            } else {
                self
            }),
    {
        match self {
            Atom::RightDoubleQuote => Atom::LeftDoubleQuote,
            _ => self,
        }
    }

    /// The right atom of the pair a left atom opens; any other atom is its own.
    pub fn corresponding_right_atom(self) -> (r: Atom)
        ensures
            r == (if self == Atom::LeftDoubleQuote {
                Atom::RightDoubleQuote
            } else {
                self
            }),
    {
        match self {
            Atom::LeftDoubleQuote => Atom::RightDoubleQuote,
            _ => self,
        }
    }

    /// The snake-case name of the atom, as the debug listing prints it.
    pub fn name(self) -> (r: &'static str)
        ensures
            r@ == atom_name(self),
    {
        match self {
            Atom::Str => "str",
            Atom::Escape => "escape",
            Atom::Hardbreak => "hardbreak",
            Atom::Nbsp => "nbsp",
            Atom::Blankline => "blankline",
            Atom::ImageMarker => "image_marker",
            Atom::LeftDoubleQuote => "left_double_quote",
            Atom::RightDoubleQuote => "right_double_quote",
            Atom::Ellipses => "ellipses",
            Atom::Softbreak => "softbreak",
            Atom::FootnoteReference => "footnote_reference",
            Atom::OpenMarker => "open_marker",
            Atom::Emoji => "emoji",
            Atom::ReferenceKey => "reference_key",
            Atom::ReferenceValue => "reference_value",
            Atom::CodeLanguage => "code_language",
            Atom::EmDash => "em_dash",
            Atom::EnDash => "en_dash",
            Atom::Id => "id",
            Atom::Key => "key",
            Atom::Value => "value",
            Atom::Class => "class",
        }
    }
}

/// Left and right atoms are exchanged by their correspondences, and each round trip
/// gives the atom back.
pub proof fn lemma_corresponding_atoms_round_trip(a: Atom)
    ensures
        spec_is_left_atom(a) ==> spec_is_right_atom(
            if a == Atom::LeftDoubleQuote {
                Atom::RightDoubleQuote
            } else {
                a
            },
        ),
        spec_is_right_atom(a) ==> spec_is_left_atom(
            if a == Atom::RightDoubleQuote {
                Atom::LeftDoubleQuote
            } else {
                a
            },
        ),
        !spec_is_left_atom(a) || !spec_is_right_atom(a),
{
}

/// The name of a composite as text.
pub open spec fn comp_name(a: Comp) -> Seq<char> {
    match a {
        Comp::Doc => "doc"@,
        Comp::Verbatim => "verbatim"@,
        Comp::Email => "email"@,
        Comp::Url => "url"@,
        Comp::Subscript => "subscript"@,
        Comp::Superscript => "superscript"@,
        Comp::Para => "para"@,
        Comp::CodeBlock => "code_block"@,
        Comp::Imagetext => "imagetext"@,
        Comp::Linktext => "linktext"@,
        Comp::Reference => "reference"@,
        Comp::Destination => "destination"@,
        Comp::Emph => "emph"@,
        Comp::Strong => "strong"@,
        Comp::Span => "span"@,
        Comp::DoubleQuoted => "double_quoted"@,
        Comp::ReferenceDefinition => "reference_definition"@,
        Comp::Insert => "insert"@,
        Comp::Delete => "delete"@,
        Comp::Mark => "mark"@,
        Comp::Attributes => "attributes"@,
    }
}

impl Comp {
    pub fn add(self) -> (r: Annot)
        ensures
            r == Annot::Add(self),
    {
        Annot::Add(self)
    }

    pub fn sub(self) -> (r: Annot)
        ensures
            r == Annot::Sub(self),
    {
        Annot::Sub(self)
    }

    /// The snake-case name of the composite, as the debug listing prints it.
    pub fn name(self) -> (r: &'static str)
        ensures
            r@ == comp_name(self),
    {
        match self {
            Comp::Doc => "doc",
            Comp::Verbatim => "verbatim",
            Comp::Email => "email",
            Comp::Url => "url",
            Comp::Subscript => "subscript",
            Comp::Superscript => "superscript",
            Comp::Para => "para",
            Comp::CodeBlock => "code_block",
            Comp::Imagetext => "imagetext",
            Comp::Linktext => "linktext",
            Comp::Reference => "reference",
            Comp::Destination => "destination",
            Comp::Emph => "emph",
            Comp::Strong => "strong",
            Comp::Span => "span",
            Comp::DoubleQuoted => "double_quoted",
            Comp::ReferenceDefinition => "reference_definition",
            Comp::Insert => "insert",
            Comp::Delete => "delete",
            Comp::Mark => "mark",
            Comp::Attributes => "attributes",
        }
    }

    /// The composite that a fresh state starts with.
    pub fn default_comp() -> (r: Comp)
        ensures
            r == Comp::Para,
    {
        Comp::Para
    }
}

/// How an annotation reads in the debug listing.
pub open spec fn spec_annot_text(a: Annot) -> Seq<char> {
    match a {
        Annot::Atom(x) => atom_name(x),
        Annot::Add(c) => "+"@ + comp_name(c),
        Annot::Sub(c) => "-"@ + comp_name(c),
    }
}

impl Annot {
    /// The annotation as the debug listing prints it: an atom by its name, an opening
    /// composite with `+` before its name, a closing one with `-`.
    pub fn to_text(self) -> (r: String)
        ensures
            r@ == spec_annot_text(self),
    {
        match self {
            Annot::Atom(a) => String::from_str(a.name()),
            Annot::Add(c) => {
                let mut s = String::from_str("+");
                s.append(c.name());
                s
            },
            Annot::Sub(c) => {
                let mut s = String::from_str("-");
                s.append(c.name());
                s
            },
        }
    }
}

} // verus!
