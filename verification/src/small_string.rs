//! Immutable string type optimized for short strings.
//!
//! Transducers can contain hundreds of thousands of short output strings;
//! this type keeps strings of up to seven characters inline on the stack and
//! spills longer ones to the heap.

use vstd::prelude::*;
use vstd::string::StrSliceExecFns;

verus! {

broadcast use vstd::array::group_array_axioms;

/// Immutable string type optimized for short strings.
///
/// Strings of up to seven characters are stored inline; longer strings are
/// boxed. The type is immutable to simplify the implementation.
pub enum SmallString {
    /// Small string representation.
    Array { data: [char; 7], len: u8 },
    /// Long string representation.
    String(Box<String>),
}

impl View for SmallString {
    type V = Seq<char>;

    open spec fn view(&self) -> Seq<char> {
        match self {
            SmallString::Array { data, len } => if *len as int <= 7 {
                data@.take(*len as int)
            } else {
                data@
            },
            SmallString::String(b) => b@,
        }
    }
}

impl SmallString {
    /// The inline representation never claims more characters than it holds.
    pub open spec fn wf(&self) -> bool {
        match self {
            SmallString::Array { data: _, len } => *len as int <= 7,
            SmallString::String(_) => true,
        }
    }

    /// A small string holding the characters of `s`.
    pub fn from_str_slice(s: &str) -> (r: SmallString)
        ensures
            r.wf(),
            r@ == s@,
            s@.len() <= 7 ==> r is Array,
            s@.len() > 7 ==> r is String,
    {
        let n = s.unicode_len();
        if n <= 7 {
            let mut data: [char; 7] = ['\u{0}'; 7];
            let mut i: usize = 0;
            while i < n
                invariant
                    i <= n,
                    n <= 7,
                    n == s@.len(),
                    forall|j: int| 0 <= j < i ==> data@[j] == s@[j],
                decreases n - i,
            {
                data[i] = s.get_char(i);
                i = i + 1;
            }
            let r = SmallString::Array { data, len: n as u8 };
            proof {
                assert(r@ =~= s@);
            }
            r
        } else {
            SmallString::String(Box::new(s.to_owned()))
        }
    }

    /// A small string holding the characters of `s`, taking ownership.
    pub fn from_string(s: String) -> (r: SmallString)
        ensures
            r.wf(),
            r@ == s@,
            s@.len() <= 7 ==> r is Array,
            s@.len() > 7 ==> r is String,
    {
        let n = s.as_str().unicode_len();
        if n <= 7 {
            Self::from_str_slice(s.as_str())
        } else {
            SmallString::String(Box::new(s))
        }
    }

    /// Number of characters.
    pub fn char_len(&self) -> (n: usize)
        requires
            self.wf(),
        ensures
            n == self@.len(),
    {
        match self {
            SmallString::Array { data: _, len } => *len as usize,
            SmallString::String(b) => b.as_str().unicode_len(),
        }
    }

    /// The character at index `i`.
    pub fn char_at(&self, i: usize) -> (c: char)
        requires
            self.wf(),
            i < self@.len(),
        ensures
            c == self@[i as int],
    {
        match self {
            SmallString::Array { data, len: _ } => data[i],
            SmallString::String(b) => b.as_str().get_char(i),
        }
    }

    /// The characters of the string, in order.
    pub fn chars(&self) -> (r: Vec<char>)
        requires
            self.wf(),
        ensures
            r@ == self@,
    {
        let n = self.char_len();
        let mut v: Vec<char> = Vec::new();
        let mut i: usize = 0;
        while i < n
            invariant
                i <= n,
                n == self@.len(),
                self.wf(),
                v@ == self@.take(i as int),
            decreases n - i,
        {
            let c = self.char_at(i);
            v.push(c);
            proof {
                assert(self@.take(i + 1 as int) =~= self@.take(i as int).push(self@[i as int]));
            }
            i = i + 1;
        }
        proof {
            assert(v@ =~= self@);
        }
        v
    }
}

} // verus!
