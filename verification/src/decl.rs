use vstd::prelude::*;
use vstd::utf8::encode_utf8;

verus! {

/// What a bare boolean flag resolves to when it is present in the input.
pub enum OptAction {
    /// Presence of the flag resolves to the literal string `"true"`.
    StoreTrue,
    /// Presence of the flag resolves to the literal string `"false"`.
    StoreFalse,
}

/// Whether an option expects a value token after its name.
#[derive(Clone, Copy)]
pub enum Arity {
    /// The option is a bare flag and never consumes a value token.
    NoValue,
    /// The option must be followed by a value token.
    ValueRequired,
}

/// How often an option may occur on the command line.
#[derive(Clone, Copy)]
pub enum Occurrence {
    /// The option may be given at most once.
    Optional,
    /// The option must be given.
    Required,
    /// The option may be given any number of times.
    Multiple,
}

/// One declared option: its long name, optional one-character short
/// alias (empty meaning none), whether it is required, whether repeated
/// occurrences are accepted, an optional default value, optional
/// boolean-flag semantics, its help text, and the derived uppercase
/// placeholder shown in usage text.
pub struct OptionDef {
    pub name: String,
    pub short_name: String,
    pub required: bool,
    pub multiple: bool,
    pub default: Option<String>,
    pub action: Option<OptAction>,
    pub help: String,
    pub uppercase_name: String,
}

impl OptionDef {
    /// A blank declaration; `OptionParser::add_option` fills the fields in.
    pub fn new() -> (d: Self)
        ensures
            d.name@ == Seq::<char>::empty(),
            d.short_name@ == Seq::<char>::empty(),
            !d.required,
            !d.multiple,
            d.default is None,
            d.action is None,
            d.help@ == Seq::<char>::empty(),
            d.uppercase_name@ == Seq::<char>::empty(),
    {
        Self {
            name: String::new(),
            short_name: String::new(),
            required: false,
            multiple: false,
            default: None,
            action: None,
            help: String::new(),
            uppercase_name: String::new(),
        }
    }

    /// Names the scanner accepts: a long name of at least two bytes (as
    /// the scanner itself measures names), and a short alias that is
    /// either empty or a single ASCII character.
    pub open spec fn wf(self) -> bool {
        &&& encode_utf8(self.name@).len() >= 2
        &&& (self.short_name@.len() == 0 || (self.short_name@.len() == 1
            && self.short_name.is_ascii()))
    }
}

} // verus!
