//! The `kind:payload` text forms of [`Mount`] and [`FormulaInput`].

use vstd::prelude::*;
use vstd::string::*;

use crate::model::{FormulaInput, FormulaInputView, Mount, MountView, WareID};
use crate::text::{has_prefix, starts_with};

verus! {

/// The text of a mount: `ro:<host>`, `rw:<host>` or `overlay:<host>`.
pub open spec fn mount_text(m: MountView) -> Seq<char> {
    match m {
        MountView::ReadOnly(h) => "ro:"@ + h,
        MountView::ReadWrite(h) => "rw:"@ + h,
        MountView::Overlay(h) => "overlay:"@ + h,
    }
}

/// The mount that a text denotes, if any.
pub open spec fn mount_of(s: Seq<char>) -> Option<MountView> {
    if starts_with(s, "ro:"@) {
        Some(MountView::ReadOnly(s.skip("ro:"@.len() as int)))
    } else if starts_with(s, "rw:"@) {
        Some(MountView::ReadWrite(s.skip("rw:"@.len() as int)))
    } else if starts_with(s, "overlay:"@) {
        Some(MountView::Overlay(s.skip("overlay:"@.len() as int)))
    } else {
        None
    }
}

/// The text of an input: `ware:<id>`, `mount:<mount text>` or `literal:<value>`.
pub open spec fn input_text(i: FormulaInputView) -> Seq<char> {
    match i {
        FormulaInputView::Ware(w) => "ware:"@ + w,
        FormulaInputView::Mount(m) => "mount:"@ + mount_text(m),
        FormulaInputView::Literal(v) => "literal:"@ + v,
    }
}

/// The input that a text denotes, if any.
pub open spec fn input_of(s: Seq<char>) -> Option<FormulaInputView> {
    if starts_with(s, "ware:"@) {
        Some(FormulaInputView::Ware(s.skip("ware:"@.len() as int)))
    } else if starts_with(s, "mount:"@) {
        match mount_of(s.skip("mount:"@.len() as int)) {
            Some(m) => Some(FormulaInputView::Mount(m)),
            None => None,
        }
    } else if starts_with(s, "literal:"@) {
        Some(FormulaInputView::Literal(s.skip("literal:"@.len() as int)))
    } else {
        None
    }
}

proof fn reveal_tags()
    ensures
        "ro:"@ == seq!['r', 'o', ':'],
        "rw:"@ == seq!['r', 'w', ':'],
        "overlay:"@ == seq!['o', 'v', 'e', 'r', 'l', 'a', 'y', ':'],
        "ware:"@ == seq!['w', 'a', 'r', 'e', ':'],
        "mount:"@ == seq!['m', 'o', 'u', 'n', 't', ':'],
        "literal:"@ == seq!['l', 'i', 't', 'e', 'r', 'a', 'l', ':'],
{
    reveal_strlit("ro:");
    reveal_strlit("rw:");
    reveal_strlit("overlay:");
    reveal_strlit("ware:");
    reveal_strlit("mount:");
    reveal_strlit("literal:");
}

/// Reading the text of a mount gives the mount back.
pub proof fn lemma_mount_round_trip(m: MountView)
    ensures
        mount_of(mount_text(m)) == Some(m),
{
    reveal_tags();
    let s = mount_text(m);
    match m {
        MountView::ReadOnly(h) => {
            assert(s.subrange(0, 3) =~= "ro:"@);
            assert(s.skip(3) =~= h);
        },
        MountView::ReadWrite(h) => {
            assert(s.subrange(0, 3) =~= "rw:"@);
            assert(s.subrange(0, 3)[1] != "ro:"@[1]);
            assert(s.skip(3) =~= h);
        },
        MountView::Overlay(h) => {
            assert(s.subrange(0, 8) =~= "overlay:"@);
            assert(s.subrange(0, 3)[0] != "ro:"@[0]);
            assert(s.subrange(0, 3)[0] != "rw:"@[0]);
            assert(s.skip(8) =~= h);
        },
    }
}

/// Writing a mount that was read from a text gives that text back.
pub proof fn lemma_mount_text_of_parsed(s: Seq<char>)
    requires
        mount_of(s) is Some,
    ensures
        mount_text(mount_of(s).unwrap()) == s,
{
    reveal_tags();
    if starts_with(s, "ro:"@) {
        assert(s =~= s.subrange(0, 3) + s.skip(3));
    } else if starts_with(s, "rw:"@) {
        assert(s =~= s.subrange(0, 3) + s.skip(3));
    } else {
        assert(s =~= s.subrange(0, 8) + s.skip(8));
    }
}

/// Reading the text of an input gives the input back.
pub proof fn lemma_input_round_trip(i: FormulaInputView)
    ensures
        input_of(input_text(i)) == Some(i),
{
    reveal_tags();
    let s = input_text(i);
    match i {
        FormulaInputView::Ware(w) => {
            assert(s.subrange(0, 5) =~= "ware:"@);
            assert(s.skip(5) =~= w);
        },
        FormulaInputView::Mount(m) => {
            assert(s.subrange(0, 6) =~= "mount:"@);
            assert(s.subrange(0, 5)[0] != "ware:"@[0]);
            assert(s.skip(6) =~= mount_text(m));
            lemma_mount_round_trip(m);
        },
        FormulaInputView::Literal(v) => {
            assert(s.subrange(0, 8) =~= "literal:"@);
            assert(s.subrange(0, 5)[0] != "ware:"@[0]);
            assert(s.subrange(0, 6)[0] != "mount:"@[0]);
            assert(s.skip(8) =~= v);
        },
    }
}

/// Writing an input that was read from a text gives that text back.
pub proof fn lemma_input_text_of_parsed(s: Seq<char>)
    requires
        input_of(s) is Some,
    ensures
        input_text(input_of(s).unwrap()) == s,
{
    reveal_tags();
    if starts_with(s, "ware:"@) {
        assert(s =~= s.subrange(0, 5) + s.skip(5));
    } else if starts_with(s, "mount:"@) {
        lemma_mount_text_of_parsed(s.skip(6));
        assert(s =~= s.subrange(0, 6) + s.skip(6));
    } else {
        assert(s =~= s.subrange(0, 8) + s.skip(8));
    }
}

impl Mount {
    /// The `kind:payload` text of the mount.
    pub fn to_text(&self) -> (r: String)
        ensures
            r@ == mount_text(self@),
    {
        match self {
            Mount::ReadOnly(h) => String::from_str("ro:").concat(h.as_str()),
            Mount::ReadWrite(h) => String::from_str("rw:").concat(h.as_str()),
            Mount::Overlay(h) => String::from_str("overlay:").concat(h.as_str()),
        }
    }

    /// Reads a mount from its `kind:payload` text.
    pub fn from_text(s: &str) -> (r: Option<Mount>)
        ensures
            r matches Some(m) ==> mount_of(s@) == Some(m@),
            r is None <==> mount_of(s@) is None,
    {
        proof {
            reveal_tags();
        }
        let n = s.unicode_len();
        if has_prefix(s, "ro:") {
            Some(Mount::ReadOnly(String::from_str(s.substring_char(3, n))))
        } else if has_prefix(s, "rw:") {
            Some(Mount::ReadWrite(String::from_str(s.substring_char(3, n))))
        } else if has_prefix(s, "overlay:") {
            Some(Mount::Overlay(String::from_str(s.substring_char(8, n))))
        } else {
            None
        }
    }
}

impl FormulaInput {
    /// The `kind:payload` text of the input.
    pub fn to_text(&self) -> (r: String)
        ensures
            r@ == input_text(self@),
    {
        match self {
            FormulaInput::Ware(w) => String::from_str("ware:").concat(w.0.as_str()),
            FormulaInput::Mount(m) => String::from_str("mount:").concat(m.to_text().as_str()),
            FormulaInput::Literal(v) => String::from_str("literal:").concat(v.as_str()),
        }
    }

    /// Reads an input from its `kind:payload` text.
    pub fn from_text(s: &str) -> (r: Option<FormulaInput>)
        ensures
            r matches Some(i) ==> input_of(s@) == Some(i@),
            r is None <==> input_of(s@) is None,
    {
        proof {
            reveal_tags();
        }
        let n = s.unicode_len();
        if has_prefix(s, "ware:") {
            Some(FormulaInput::Ware(WareID(String::from_str(s.substring_char(5, n)))))
        } else if has_prefix(s, "mount:") {
            match Mount::from_text(s.substring_char(6, n)) {
                Some(m) => Some(FormulaInput::Mount(m)),
                None => None,
            }
        } else if has_prefix(s, "literal:") {
            Some(FormulaInput::Literal(String::from_str(s.substring_char(8, n))))
        } else {
            None
        }
    }
}

} // verus!
