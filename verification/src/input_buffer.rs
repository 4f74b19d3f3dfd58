//! The keys of a compound command that is being typed, such as `dd` or `ciw`.

use crate::text::str_eq;
use vstd::prelude::*;
use vstd::string::*;

verus! {

/// The regular expression that a complete compound command matches.
pub const COMMAND_PATTERN: &'static str =
    r#"^(([cdy][ai][wWeEbB\(\)\[\]\{\}"'`])|([cd]f.)|(g[gfd])|([cd][GwWeEbBhjkl\{\}$0])|([cd](gg|ga))|(\d+[hjklwWbBeE])|(\d+[cd][wWeEbB])|yy|cc|dd|([cd][fFtT].))$"#;

/// `regex::Error`, the error of a pattern that does not compile. Nothing is
/// known of what it holds; it is handed on as it comes.
#[verifier::external_type_specification]
#[verifier::external_body]
pub struct ExRegexError(regex::Error);

/// What searching `text` for the regular expression `pattern` gives: whether
/// a match was found, or `None` where `pattern` is no regular expression that
/// the `regex` crate compiles.
pub uninterp spec fn regex_search(pattern: Seq<char>, text: Seq<char>) -> Option<bool>;

/// `regex::Regex::new` on `pattern` and, where that compiles,
/// `regex::Regex::is_match` on `text`. Both depend on their arguments alone,
/// so the outcome has a name; nothing more is claimed of it. Trusted, not
/// proved.
#[verifier::external_body]
fn pattern_is_match(pattern: &str, text: &str) -> (r: Result<bool, regex::Error>)
    ensures
        r is Ok <==> regex_search(pattern@, text@) is Some,
        r matches Ok(found) ==> regex_search(pattern@, text@) == Some(found),
{
    match regex::Regex::new(pattern) {
        Ok(re) => Ok(re.is_match(text)),
        Err(e) => Err(e),
    }
}

/// `text` is a complete compound command: two or three keys that the
/// command pattern matches.
pub open spec fn is_command(text: Seq<char>) -> bool {
    2 <= text.len() <= 3 && regex_search(COMMAND_PATTERN@, text) == Some(true)
}

/// `key` is one of the keys that do nothing but start a compound command:
/// `c`, `d`, `g` or `f`.
pub open spec fn is_initializer_key(key: Seq<char>) -> bool {
    key == seq!['c'] || key == seq!['d'] || key == seq!['g'] || key == seq!['f']
}

/// The keys after a check at full length: three or more keys that are no
/// command are dropped, everything else stays.
pub open spec fn settled(keys: Seq<char>, valid: bool) -> Seq<char> {
    if keys.len() >= 3 && !valid {
        Seq::empty()
    } else {
        keys
    }
}

/// The pending keys of a compound command.
#[derive(Debug)]
pub struct InputBuffer {
    initializers: Vec<String>,
    buffer: String,
    pattern: String,
}

impl View for InputBuffer {
    type V = Seq<char>;

    /// The pending keys.
    closed spec fn view(&self) -> Seq<char> {
        self.buffer@
    }
}

impl InputBuffer {
    #[verifier::type_invariant]
    spec fn inv(self) -> bool {
        &&& self.pattern@ == COMMAND_PATTERN@
        &&& self.initializers@.len() == 4
        &&& self.initializers@[0]@ == seq!['c']
        &&& self.initializers@[1]@ == seq!['d']
        &&& self.initializers@[2]@ == seq!['g']
        &&& self.initializers@[3]@ == seq!['f']
    }

    /// No pending keys.
    pub fn new() -> (r: Self)
        ensures
            r@.len() == 0,
    {
        proof {
            reveal_strlit("c");
            reveal_strlit("d");
            reveal_strlit("g");
            reveal_strlit("f");
        }
        let mut initializers: Vec<String> = Vec::new();
        initializers.push("c".to_owned());
        initializers.push("d".to_owned());
        initializers.push("g".to_owned());
        initializers.push("f".to_owned());
        assert("c"@ =~= seq!['c'] && "d"@ =~= seq!['d']);
        assert("g"@ =~= seq!['g'] && "f"@ =~= seq!['f']);
        InputBuffer { initializers, buffer: String::new(), pattern: COMMAND_PATTERN.to_owned() }
    }

    /// The pending keys.
    pub fn buffer(&self) -> (r: &String)
        ensures
            r@ == self@,
    {
        &self.buffer
    }

    /// Whether no key is pending.
    pub fn is_empty(&self) -> (r: bool)
        ensures
            r == (self@.len() == 0),
    {
        self.buffer.as_str().unicode_len() == 0
    }

    /// Whether `input` is one of the keys that start a compound command.
    pub fn is_initializer(&self, input: &str) -> (r: bool)
        ensures
            r == is_initializer_key(input@),
    {
        proof {
            use_type_invariant(self);
        }
        let mut i: usize = 0;
        while i < self.initializers.len()
            invariant
                i <= self.initializers.len(),
                self.initializers@.len() == 4,
                self.initializers@[0]@ == seq!['c'],
                self.initializers@[1]@ == seq!['d'],
                self.initializers@[2]@ == seq!['g'],
                self.initializers@[3]@ == seq!['f'],
                forall|j: int| 0 <= j < i ==> self.initializers@[j]@ != input@,
            decreases self.initializers.len() - i,
        {
            if str_eq(self.initializers[i].as_str(), input) {
                return true;
            }
            i += 1;
        }
        false
    }

    /// Appends `input` to the pending keys without checking them.
    pub fn push(&mut self, input: &str)
        ensures
            final(self)@ == old(self)@ + input@,
    {
        proof {
            use_type_invariant(&*self);
        }
        let mut keys = String::new();
        core::mem::swap(&mut keys, &mut self.buffer);
        keys.append(input);
        self.buffer = keys;
    }

    /// Drops the pending keys where there are three or more of them and
    /// `valid` says that they are no command.
    pub fn settle(&mut self, valid: bool)
        ensures
            final(self)@ == settled(old(self)@, valid),
    {
        proof {
            use_type_invariant(&*self);
        }
        if self.buffer.as_str().unicode_len() >= 3 && !valid {
            self.buffer = String::new();
        }
    }

    /// Appends `input` to the pending keys. Three or more keys that are no
    /// command are dropped at once, so never more than three keys are held.
    pub fn add(&mut self, input: &str)
        ensures
            final(self)@ == settled(old(self)@ + input@, is_command(old(self)@ + input@)),
            final(self)@.len() <= 3,
    {
        self.push(input);
        let valid = self.is_valid();
        self.settle(valid);
    }

    /// Drops the pending keys.
    pub fn clear(&mut self)
        ensures
            final(self)@.len() == 0,
    {
        proof {
            use_type_invariant(&*self);
        }
        self.buffer = String::new();
    }

    /// Whether the pending keys are a complete compound command: two or
    /// three keys that the command pattern matches. The error where the
    /// command pattern does not compile.
    pub fn valid(&self) -> (r: Result<bool, regex::Error>)
        ensures
            r is Ok <==> regex_search(COMMAND_PATTERN@, self@) is Some,
            r matches Ok(found) ==> found == is_command(self@),
    {
        proof {
            use_type_invariant(self);
        }
        let n: usize = self.buffer.as_str().unicode_len();
        match pattern_is_match(self.pattern.as_str(), self.buffer.as_str()) {
            Ok(found) => Ok(found && 2 <= n && n <= 3),
            Err(e) => Err(e),
        }
    }

    /// Whether the pending keys are a complete compound command. A pattern
    /// that does not compile accepts nothing.
    pub fn is_valid(&self) -> (r: bool)
        ensures
            r == is_command(self@),
    {
        match self.valid() {
            Ok(found) => found,
            Err(_) => false,
        }
    }
}

} // verus!
