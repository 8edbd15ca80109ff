//! Wrapping of guest code into the restricted execution prelude.
//!
//! The worker never receives the caller's code as-is: it runs a fixed
//! prelude that replaces the guest language's builtins with a safe
//! subset, installs an importer enforcing the configured module
//! allow/deny lists, and only then executes the caller's code, indented
//! into a guarded block.

use vstd::prelude::*;

use crate::sandbox::views_of;
use crate::sandbox::PythonSandbox;
use crate::sandbox::SandboxError;

verus! {

/// Guest code with every line carrying a four-space prefix: one prefix
/// up front and one after each newline.
pub open spec fn spec_indented_rest(s: Seq<char>) -> Seq<char>
    decreases s.len(),
{
    if s.len() == 0 {
        Seq::empty()
    } else {
        spec_indented_rest(s.drop_last()) + seq![s.last()] + (if s.last() == '\n' {
            "    "@
        } else {
            Seq::<char>::empty()
        })
    }
}

/// See [`spec_indented_rest`]; the whole text starts with one prefix.
pub open spec fn spec_indented(s: Seq<char>) -> Seq<char> {
    "    "@ + spec_indented_rest(s)
}

/// Relies on String::push to append one character.
#[verifier::external_body]
fn push_char(s: &mut String, c: char)
    ensures
        final(s)@ == old(s)@.push(c),
{
    s.push(c);
}

/// Indents guest code by four spaces per line, so that it fits into the
/// guarded block of the execution prelude.
pub fn indent_code(code: &str) -> (r: String)
    ensures
        r@ == spec_indented(code@),
{
    let n = code.unicode_len();
    let mut r = "    ".to_owned();
    proof {
        assert(code@.take(0) =~= Seq::<char>::empty());
        assert(r@ =~= spec_indented(code@.take(0)));
    }
    let mut i: usize = 0;
    while i < n
        invariant
            n == code@.len(),
            i <= n,
            r@ == spec_indented(code@.take(i as int)),
        decreases n - i,
    {
        let c = code.get_char(i);
        push_char(&mut r, c);
        if c == '\n' {
            r.append("    ");
        }
        proof {
            assert(code@.take(i + 1).drop_last() =~= code@.take(i as int));
            assert(code@.take(i + 1).last() == code@[i as int]);
            assert(r@ =~= spec_indented(code@.take(i + 1)));
        }
        i = i + 1;
    }
    proof {
        assert(code@.take(n as int) =~= code@);
    }
    r
}

/// Declares serde_json's error type so that the JSON wrapper below can
/// return it; the caller maps it to [`SandboxError::Encoding`].
#[verifier::external_type_specification]
#[verifier::external_body]
pub struct ExSerdeJsonError(serde_json::Error);

/// The JSON rendering of a list of strings, as serde_json writes it.
pub uninterp spec fn json_of_string_list(items: Seq<Seq<char>>) -> Seq<char>;

/// Relies on serde_json::to_string on a vector of strings: the JSON
/// text is a function of the strings alone, and the documented failure
/// cases (a failing Serialize implementation, a map with non-string
/// keys) cannot arise for strings.
#[verifier::external_body]
fn json_string_list(items: &Vec<String>) -> (r: Result<String, serde_json::Error>)
    ensures
        r is Ok,
        r matches Ok(text) ==> text@ == json_of_string_list(views_of(items@)),
{
    serde_json::to_string(items)
}

/// The full text handed to the worker: the fixed prelude, the two
/// module lists rendered as JSON, and the caller's code indented into
/// the guarded block.
pub open spec fn spec_wrapped_code(
    allowed_json: Seq<char>,
    blocked_json: Seq<char>,
    code: Seq<char>,
) -> Seq<char> {
    "
import sys
import builtins
import importlib
import importlib.util
import types

# Safe builtins replacement
_safe_builtins = {
    'abs': abs,
    'all': all,
    'any': any,
    'bin': bin,
    'bool': bool,
    'bytes': bytes,
    'chr': chr,
    'dict': dict,
    'divmod': divmod,
    'enumerate': enumerate,
    'filter': filter,
    'float': float,
    'format': format,
    'frozenset': frozenset,
    'hex': hex,
    'int': int,
    'isinstance': isinstance,
    'issubclass': issubclass,
    'iter': iter,
    'len': len,
    'list': list,
    'map': map,
    'max': max,
    'min': min,
    'oct': oct,
    'ord': ord,
    'pow': pow,
    'print': print,
    'range': range,
    'repr': repr,
    'reversed': reversed,
    'round': round,
    'set': set,
    'slice': slice,
    'sorted': sorted,
    'str': str,
    'sum': sum,
    'tuple': tuple,
    'type': type,
    'zip': zip,
}

# Override builtins
builtins.__dict__.clear()
builtins.__dict__.update(_safe_builtins)

# Module restrictions
_allowed_modules = "@ + allowed_json + "
_blocked_modules = "@ + blocked_json + "

class SafeImporter:
    def find_spec(self, name, path, target=None):
        if name in _blocked_modules:
            raise ImportError(f\"Module '{name}' is not allowed\")

        # Check if module is in allowed list or is a submodule
        base_name = name.split('.')[0]
        if _allowed_modules and base_name not in _allowed_modules:
            raise ImportError(f\"Module '{name}' is not allowed\")

        return None

# Install the safe importer
sys.meta_path.insert(0, SafeImporter())

# Remove dangerous attributes
delattr(builtins, '__import__')
delattr(types, 'FunctionType')
delattr(types, 'MethodType')

# Execute user code
try:
"@ + spec_indented(code) + "
except Exception as e:
    print(f\"Error: {e}\", file=sys.stderr)
    sys.exit(1)
"@
}

impl PythonSandbox {
    /// Renders the execution prelude around the caller's code, with
    /// this sandbox's module allow/deny lists embedded as JSON.
    pub fn wrap_code(&self, code: &str) -> (r: Result<String, SandboxError>)
        ensures
            r matches Ok(w) && w@ == spec_wrapped_code(
                json_of_string_list(views_of(self.config.allowed_modules@)),
                json_of_string_list(views_of(self.config.blocked_modules@)),
                code@,
            ),
    {
        let allowed_json = match json_string_list(&self.config.allowed_modules) {
            Ok(text) => text,
            Err(_) => {
                return Err(SandboxError::Encoding);
            },
        };
        let blocked_json = match json_string_list(&self.config.blocked_modules) {
            Ok(text) => text,
            Err(_) => {
                return Err(SandboxError::Encoding);
            },
        };
        let mut w = String::new();
        w.append(
            "
import sys
import builtins
import importlib
import importlib.util
import types

# Safe builtins replacement
_safe_builtins = {
    'abs': abs,
    'all': all,
    'any': any,
    'bin': bin,
    'bool': bool,
    'bytes': bytes,
    'chr': chr,
    'dict': dict,
    'divmod': divmod,
    'enumerate': enumerate,
    'filter': filter,
    'float': float,
    'format': format,
    'frozenset': frozenset,
    'hex': hex,
    'int': int,
    'isinstance': isinstance,
    'issubclass': issubclass,
    'iter': iter,
    'len': len,
    'list': list,
    'map': map,
    'max': max,
    'min': min,
    'oct': oct,
    'ord': ord,
    'pow': pow,
    'print': print,
    'range': range,
    'repr': repr,
    'reversed': reversed,
    'round': round,
    'set': set,
    'slice': slice,
    'sorted': sorted,
    'str': str,
    'sum': sum,
    'tuple': tuple,
    'type': type,
    'zip': zip,
}

# Override builtins
builtins.__dict__.clear()
builtins.__dict__.update(_safe_builtins)

# Module restrictions
_allowed_modules = ",
        );
        w.append(allowed_json.as_str());
        w.append(
            "
_blocked_modules = ",
        );
        w.append(blocked_json.as_str());
        w.append(
            "

class SafeImporter:
    def find_spec(self, name, path, target=None):
        if name in _blocked_modules:
            raise ImportError(f\"Module '{name}' is not allowed\")

        # Check if module is in allowed list or is a submodule
        base_name = name.split('.')[0]
        if _allowed_modules and base_name not in _allowed_modules:
            raise ImportError(f\"Module '{name}' is not allowed\")

        return None

# Install the safe importer
sys.meta_path.insert(0, SafeImporter())

# Remove dangerous attributes
delattr(builtins, '__import__')
delattr(types, 'FunctionType')
delattr(types, 'MethodType')

# Execute user code
try:
",
        );
        let indented = indent_code(code);
        w.append(indented.as_str());
        w.append(
            "
except Exception as e:
    print(f\"Error: {e}\", file=sys.stderr)
    sys.exit(1)
",
        );
        proof {
            assert(w@ =~= spec_wrapped_code(
                json_of_string_list(views_of(self.config.allowed_modules@)),
                json_of_string_list(views_of(self.config.blocked_modules@)),
                code@,
            ));
        }
        Ok(w)
    }
}

} // verus!
