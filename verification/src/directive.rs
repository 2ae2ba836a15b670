//! The core record of a text directive: four percent-decoded parts, of which
//! only `start` is mandatory. An empty part stands for "absent".

use vstd::prelude::*;

verus! {

/// The percent-decoded parts of a text directive, as bytes of UTF-8 text.
/// All parts besides `start` are optional, absence being indicated by an
/// empty value: a directive whose `start` is empty is invalid.
#[derive(Clone, Debug, PartialEq, Eq)]
pub struct TextDirective {
    pub prefix: Vec<u8>,
    pub start: Vec<u8>,
    pub end: Vec<u8>,
    pub suffix: Vec<u8>,
}

/// The mathematical value of a `TextDirective`: its four parts as sequences.
#[verifier::ext_equal]
pub ghost struct DirectiveView {
    pub prefix: Seq<u8>,
    pub start: Seq<u8>,
    pub end: Seq<u8>,
    pub suffix: Seq<u8>,
}

impl View for TextDirective {
    type V = DirectiveView;

    open spec fn view(&self) -> DirectiveView {
        DirectiveView {
            prefix: self.prefix@,
            start: self.start@,
            end: self.end@,
            suffix: self.suffix@,
        }
    }
}

impl DirectiveView {
    /// A directive is usable exactly when its `start` part is non-empty.
    pub open spec fn is_valid(self) -> bool {
        self.start.len() > 0
    }
}

impl TextDirective {
    /// Builds a directive from its four decoded parts. The only validity
    /// rule is that `start` must be non-empty: otherwise no value is built.
    pub fn from_parts(prefix: Vec<u8>, start: Vec<u8>, end: Vec<u8>, suffix: Vec<u8>) -> (r: Option<
        TextDirective,
    >)
        ensures
            start@.len() > 0 ==> (r matches Some(d) && d@ == (DirectiveView {
                prefix: prefix@,
                start: start@,
                end: end@,
                suffix: suffix@,
            })),
            start@.len() == 0 ==> r is None,
    {
        if start.len() == 0 {
            None
        } else {
            Some(TextDirective { prefix, start, end, suffix })
        }
    }
}

/// The views of a sequence of directives.
pub open spec fn directive_views(ds: Seq<TextDirective>) -> Seq<DirectiveView> {
    ds.map_values(|d: TextDirective| d@)
}

} // verus!
