use vstd::prelude::*;

verus! {

#[verifier::external_type_specification]
#[verifier::external_body]
pub struct ExArguments<'a>(core::fmt::Arguments<'a>);

/// Growing text buffer that the table emitter writes the generated source
/// into; `write!` works on it through `write_fmt`.
pub struct Output {
    text: String,
}

impl Output {
    /// The text collected so far.
    pub closed spec fn spec_text(self) -> Seq<char> {
        self.text@
    }

    /// An empty buffer.
    pub fn new() -> (r: Output)
        ensures
            r.spec_text().len() == 0,
    {
        Output { text: String::new() }
    }

    /// Relies on core::fmt::Write for String: formatting only appends to
    /// the buffer, leaving what was already there unchanged, and String's
    /// writer itself never fails. A formatting impl inside `arguments` may
    /// still report an error of its own; the result is dropped then, and
    /// the buffer keeps whatever prefix was rendered. No more can be
    /// promised of the appended text: formatting impls need not be pure,
    /// so the rendering is no function of `arguments` alone.
    #[verifier::external_body]
    pub fn write_fmt(&mut self, arguments: core::fmt::Arguments<'_>)
        ensures
            final(self).spec_text().len() >= old(self).spec_text().len(),
            final(self).spec_text().subrange(0, old(self).spec_text().len() as int) == old(
                self,
            ).spec_text(),
    {
        let _ = core::fmt::Write::write_fmt(&mut self.text, arguments);
    }

    /// The collected text, for writing out.
    pub fn as_str(&self) -> (r: &str)
        ensures
            r@ == self.spec_text(),
    {
        self.text.as_str()
    }
}

} // verus!
