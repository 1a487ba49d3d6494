//! How devices are shown as text, and how their attribute lists are edited.

use vstd::prelude::*;
use crate::device_uuid::{hyphenated, hyphenated_text};
use crate::error::Error;
use crate::mdev::{FormatType, MDev, MDevView, attrs_text, attr_text, opt_text, copy_opt_text, no_parent_error, no_type_error};
use crate::text::{decimal, decimal_text};

verus! {

/// One line of the attribute listing: `    @{i}: {"key":"value"}`.
pub open spec fn attr_line(i: nat, a: (Seq<char>, Seq<char>)) -> Seq<char> {
    "    @{"@ + decimal(i) + "}: {\""@ + a.0 + "\":\""@ + a.1 + "\"}\n"@
}

/// The numbered lines of the attribute listing.
pub open spec fn attr_lines(a: Seq<(Seq<char>, Seq<char>)>) -> Seq<char>
    decreases a.len(),
{
    if a.len() == 0 {
        Seq::empty()
    } else {
        attr_lines(a.drop_last()) + attr_line((a.len() - 1) as nat, a.last())
    }
}

/// The attribute listing: nothing when there are no attributes; else a
/// heading and one numbered line per attribute.
pub open spec fn attrs_listing(a: Seq<(Seq<char>, Seq<char>)>) -> Seq<char> {
    if a.len() == 0 {
        Seq::empty()
    } else {
        "  Attrs:\n"@ + attr_lines(a)
    }
}

/// What is said of a device's attributes when an index is refused.
pub open spec fn attribute_hint_of(d: MDevView) -> Seq<char> {
    if d.attrs.len() == 0 {
        "Device "@ + hyphenated(d.uuid.value) + " has no attributes"@
    } else {
        attrs_listing(d.attrs)
    }
}

/// The message for an attribute index that is out of range.
pub open spec fn bad_index_message(i: nat, d: MDevView) -> Seq<char> {
    "Attribute index "@ + decimal(i) + " is invalid\n"@ + attribute_hint_of(d)
}

/// The one-line summary of a device of known parent and type: UUID, parent,
/// type, start mode, and whether it is also active (when listing definitions)
/// or also defined (when listing running devices).
pub open spec fn device_line(d: MDevView, fmt: FormatType, defined: bool) -> Seq<char> {
    hyphenated(d.uuid.value) + " "@ + d.parent->0 + " "@ + d.mdev_type->0 + " "@ + (if d.autostart {
        "auto"@
    } else {
        "manual"@
    }) + (match fmt {
        FormatType::Defined => if d.active {
            " (active)"@
        } else {
            Seq::empty()
        },
        FormatType::Active => if defined {
            " (defined)"@
        } else {
            Seq::empty()
        },
    }) + "\n"@
}

/// Whether a device can be shown in the given form: a definition must exist,
/// a running device must be active.
pub open spec fn shown_as(d: MDevView, fmt: FormatType, defined: bool) -> bool {
    match fmt {
        FormatType::Defined => defined,
        FormatType::Active => d.active,
    }
}

impl<'e> MDev<'e> {
    /// The attribute listing (see [`attrs_listing`]).
    pub fn fmt_attrs(&self) -> (s: String)
        ensures
            s@ == attrs_listing(self@.attrs),
    {
        let mut out = String::new();
        if self.attrs.len() > 0 {
            out.append("  Attrs:\n");
            let mut i: usize = 0;
            while i < self.attrs.len()
                invariant
                    i <= self.attrs.len(),
                    out@ == "  Attrs:\n"@ + attr_lines(self@.attrs.take(i as int)),
                decreases self.attrs.len() - i,
            {
                let ghost a = self@.attrs;
                assert(a.take(i + 1).drop_last() =~= a.take(i as int));
                assert(a.take(i + 1).last() == attr_text(self.attrs@[i as int]));
                let pair = &self.attrs[i];
                out.append("    @{");
                let n = decimal_text(i as u64);
                out.append(n.as_str());
                out.append("}: {\"");
                out.append(pair.0.as_str());
                out.append("\":\"");
                out.append(pair.1.as_str());
                out.append("\"}\n");
                i = i + 1;
                assert(out@ =~= "  Attrs:\n"@ + attr_lines(a.take(i as int)));
            }
            assert(self@.attrs.take(self.attrs.len() as int) =~= self@.attrs);
        }
        out
    }

    fn attribute_hint(&self) -> (s: String)
        ensures
            s@ == attribute_hint_of(self@),
    {
        if self.attrs.len() == 0 {
            let mut s = String::from_str("Device ");
            let u = hyphenated_text(&self.uuid);
            s.append(u.as_str());
            s.append(" has no attributes");
            s
        } else {
            self.fmt_attrs()
        }
    }

    fn bad_index(&self, i: usize) -> (e: Error)
        ensures
            e matches Error::InvalidConfiguration(m) && m@ == bad_index_message(i as nat, self@),
    {
        let mut m = String::from_str("Attribute index ");
        let n = decimal_text(i as u64);
        m.append(n.as_str());
        m.append(" is invalid\n");
        let h = self.attribute_hint();
        m.append(h.as_str());
        Error::InvalidConfiguration(m)
    }

    /// The device as one line of text (and, when `verbose`, its attribute
    /// listing). `is_defined` tells whether its definition exists on disk.
    pub fn to_text(&self, fmt: FormatType, verbose: bool, is_defined: bool) -> (r: Result<String, Error>)
        ensures
            !shown_as(self@, fmt, is_defined) ==> (r matches Err(Error::DeviceState(m, u, p)) && u
                == self.uuid && opt_text(p) == self@.parent && m@ == match fmt {
                FormatType::Defined => "Device is not defined"@,
                FormatType::Active => "Device is not active"@,
            }),
            shown_as(self@, fmt, is_defined) && self.parent is None ==> (r matches Err(e)
                && no_parent_error(e, self.uuid)),
            shown_as(self@, fmt, is_defined) && self.parent is Some && self.mdev_type is None ==> (
            r matches Err(e) && no_type_error(e, self@)),
            shown_as(self@, fmt, is_defined) && self.parent is Some && self.mdev_type is Some ==> (
            r matches Ok(s) && s@ == device_line(self@, fmt, is_defined) + if verbose {
                attrs_listing(self@.attrs)
            } else {
                Seq::empty()
            }),
    {
        match fmt {
            FormatType::Defined => {
                if !is_defined {
                    return Err(Error::DeviceState(String::from_str("Device is not defined"), self.uuid, copy_opt_text(&self.parent)));
                }
            },
            FormatType::Active => {
                if !self.active {
                    return Err(Error::DeviceState(String::from_str("Device is not active"), self.uuid, copy_opt_text(&self.parent)));
                }
            },
        }
        let mut output = hyphenated_text(&self.uuid);
        output.append(" ");
        let p = self.parent()?;
        output.append(p.as_str());
        output.append(" ");
        let t = self.mdev_type()?;
        output.append(t.as_str());
        output.append(" ");
        if self.autostart {
            output.append("auto");
        } else {
            output.append("manual");
        }
        match fmt {
            FormatType::Defined => {
                if self.active {
                    output.append(" (active)");
                }
            },
            FormatType::Active => {
                if is_defined {
                    output.append(" (defined)");
                }
            },
        }
        output.append("\n");
        let ghost line = output@;
        assert(line =~= device_line(self@, fmt, is_defined));
        if verbose {
            let a = self.fmt_attrs();
            output.append(a.as_str());
        }
        assert(output@ =~= device_line(self@, fmt, is_defined) + if verbose {
            attrs_listing(self@.attrs)
        } else {
            Seq::empty()
        });
        Ok(output)
    }

    /// Adds an attribute at position `index`, or at the end.
    pub fn add_attribute(&mut self, name: String, value: String, index: Option<usize>) -> (r: Result<(), Error>)
        ensures
            final(self).env == old(self).env,
            final(self).uuid == old(self).uuid,
            final(self).active == old(self).active,
            final(self).autostart == old(self).autostart,
            final(self).parent == old(self).parent,
            final(self).mdev_type == old(self).mdev_type,
            match index {
                Some(i) => if i > old(self).attrs.len() {
                    final(self).attrs@ == old(self).attrs@ && (r matches Err(
                        Error::InvalidConfiguration(m),
                    ) && m@ == bad_index_message(i as nat, old(self)@))
                } else {
                    r is Ok && final(self).attrs@ == old(self).attrs@.insert(i as int, (name, value))
                },
                None => r is Ok && final(self).attrs@ == old(self).attrs@.push((name, value)),
            },
    {
        match index {
            Some(i) => {
                if i > self.attrs.len() {
                    return Err(self.bad_index(i));
                }
                self.attrs.insert(i, (name, value));
            },
            None => self.attrs.push((name, value)),
        }
        Ok(())
    }

    /// Removes the attribute at position `index`, or the last one (if any).
    pub fn delete_attribute(&mut self, index: Option<usize>) -> (r: Result<(), Error>)
        ensures
            final(self).env == old(self).env,
            final(self).uuid == old(self).uuid,
            final(self).active == old(self).active,
            final(self).autostart == old(self).autostart,
            final(self).parent == old(self).parent,
            final(self).mdev_type == old(self).mdev_type,
            match index {
                Some(i) => if i >= old(self).attrs.len() {
                    final(self).attrs@ == old(self).attrs@ && (r matches Err(
                        Error::InvalidConfiguration(m),
                    ) && m@ == bad_index_message(i as nat, old(self)@))
                } else {
                    r is Ok && final(self).attrs@ == old(self).attrs@.remove(i as int)
                },
                None => r is Ok && if old(self).attrs.len() == 0 {
                    final(self).attrs@ == old(self).attrs@
                } else {
                    final(self).attrs@ == old(self).attrs@.drop_last()
                },
            },
    {
        match index {
            Some(i) => {
                if i >= self.attrs.len() {
                    return Err(self.bad_index(i));
                }
                self.attrs.remove(i);
            },
            None => {
                self.attrs.pop();
            },
        }
        Ok(())
    }
}

/// Deleting at the index just added at gives back the attribute list as it
/// was; so does deleting the last after adding at the end.
pub proof fn law_delete_undoes_add(attrs: Seq<(String, String)>, i: int, a: (String, String))
    requires
        0 <= i <= attrs.len(),
    ensures
        i < attrs.insert(i, a).len(),
        attrs.insert(i, a).remove(i) == attrs,
        attrs.push(a).len() != 0,
        attrs.push(a).drop_last() == attrs,
{
    assert(attrs.insert(i, a).remove(i) =~= attrs);
    assert(attrs.push(a).drop_last() =~= attrs);
}

/// In the listing of definitions a device's line is its UUID, parent, type
/// and start mode, followed by " (active)" exactly when the device is
/// active; whether its definition exists does not change the line.
pub proof fn law_defined_line_marks_active(d: MDevView, defined: bool)
    ensures
        device_line(d, FormatType::Defined, defined) == hyphenated(d.uuid.value) + " "@ + d.parent->0 + " "@
            + d.mdev_type->0 + " "@ + (if d.autostart {
            "auto"@
        } else {
            "manual"@
        }) + (if d.active {
            " (active)"@
        } else {
            ""@
        }) + "\n"@,
        device_line(d, FormatType::Defined, true) == device_line(d, FormatType::Defined, false),
{
    reveal_strlit("");
    assert(""@ =~= Seq::<char>::empty());
}

} // verus!
