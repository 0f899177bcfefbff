//! Whitelist admission filters for the two event kinds. An empty whitelist
//! is a wildcard and admits every value; a non-empty whitelist admits
//! exactly its members. Input events are admitted when every dimension
//! admits its value, each empty dimension acting as a wildcard.

use vstd::prelude::*;

verus! {

/// Admission policy for power events, by device class.
pub struct AcpiFilter {
    device_class_whitelist: Vec<String>,
}

impl View for AcpiFilter {
    type V = Seq<Seq<char>>;

    closed spec fn view(&self) -> Seq<Seq<char>> {
        Seq::new(self.device_class_whitelist@.len(), |i: int| self.device_class_whitelist@[i]@)
    }
}

/// A power event is admitted when the whitelist is empty or lists its
/// device class.
pub open spec fn spec_admits_power(ws: Seq<Seq<char>>, dev_class: Seq<char>) -> bool {
    ws.len() == 0 || ws.contains(dev_class)
}

impl AcpiFilter {
    pub fn new(whitelist: Vec<String>) -> (r: Self)
        ensures
            r@.len() == whitelist@.len(),
            forall|i: int| 0 <= i < whitelist@.len() ==> r@[i] == (#[trigger] whitelist@[i])@,
    {
        AcpiFilter { device_class_whitelist: whitelist }
    }

    /// The whitelist lists this device class.
    pub fn contains_device_class(&self, dev_class: &String) -> (r: bool)
        ensures
            r <==> self@.contains(dev_class@),
    {
        let n = self.device_class_whitelist.len();
        let mut i: usize = 0;
        while i < n
            invariant
                i <= n,
                n == self@.len(),
                n == self.device_class_whitelist@.len(),
                forall|j: int| 0 <= j < i ==> self@[j] != dev_class@,
            decreases n - i,
        {
            if self.device_class_whitelist[i] == *dev_class {
                proof {
                    assert(self@[i as int] == dev_class@);
                }
                return true;
            }
            i = i + 1;
        }
        false
    }

    /// The whitelist is empty and admits everything.
    pub fn is_wildcard(&self) -> (r: bool)
        ensures
            r <==> self@.len() == 0,
    {
        self.device_class_whitelist.len() == 0
    }

    /// The admission decision for a power event of this device class.
    pub fn admits_device_class(&self, dev_class: &String) -> (r: bool)
        ensures
            r <==> spec_admits_power(self@, dev_class@),
    {
        self.contains_device_class(dev_class) || self.is_wildcard()
    }
}

/// Admission policy for input events, by type, code and value.
pub struct EvdevFilter {
    evdev_type_whitelist: Vec<u16>,
    evdev_code_whitelist: Vec<u16>,
    evdev_value_whitelist: Vec<i32>,
}

/// The mathematical content of an [`EvdevFilter`]: its three whitelists.
pub struct EvdevFilterView {
    pub types: Seq<u16>,
    pub codes: Seq<u16>,
    pub values: Seq<i32>,
}

impl View for EvdevFilter {
    type V = EvdevFilterView;

    closed spec fn view(&self) -> EvdevFilterView {
        EvdevFilterView {
            types: self.evdev_type_whitelist@,
            codes: self.evdev_code_whitelist@,
            values: self.evdev_value_whitelist@,
        }
    }
}

/// One whitelist dimension admits a value when it is empty or lists it.
pub open spec fn dim_admits<T>(ws: Seq<T>, x: T) -> bool {
    ws.len() == 0 || ws.contains(x)
}

/// The pinned admission policy for input events: every dimension must admit
/// its value — an empty dimension admits anything — or the whole filter is
/// the wildcard with all three whitelists empty.
pub open spec fn spec_admits_input(f: EvdevFilterView, ty: u16, code: u16, value: i32) -> bool {
    (dim_admits(f.types, ty) && dim_admits(f.codes, code) && dim_admits(f.values, value)) || (
    f.types.len() == 0 && f.codes.len() == 0 && f.values.len() == 0)
}

fn vec_u16_admits(ws: &Vec<u16>, x: u16) -> (r: bool)
    ensures
        r <==> dim_admits(ws@, x),
{
    let n = ws.len();
    if n == 0 {
        return true;
    }
    let mut i: usize = 0;
    while i < n
        invariant
            i <= n,
            n == ws@.len(),
            forall|j: int| 0 <= j < i ==> ws@[j] != x,
        decreases n - i,
    {
        if ws[i] == x {
            return true;
        }
        i = i + 1;
    }
    false
}

fn vec_i32_admits(ws: &Vec<i32>, x: i32) -> (r: bool)
    ensures
        r <==> dim_admits(ws@, x),
{
    let n = ws.len();
    if n == 0 {
        return true;
    }
    let mut i: usize = 0;
    while i < n
        invariant
            i <= n,
            n == ws@.len(),
            forall|j: int| 0 <= j < i ==> ws@[j] != x,
        decreases n - i,
    {
        if ws[i] == x {
            return true;
        }
        i = i + 1;
    }
    false
}

impl EvdevFilter {
    pub fn new(type_whitelist: Vec<u16>, code_whitelist: Vec<u16>, value_whitelist: Vec<i32>) -> (r:
        Self)
        ensures
            r@.types == type_whitelist@,
            r@.codes == code_whitelist@,
            r@.values == value_whitelist@,
    {
        EvdevFilter {
            evdev_type_whitelist: type_whitelist,
            evdev_code_whitelist: code_whitelist,
            evdev_value_whitelist: value_whitelist,
        }
    }

    /// The type dimension admits this event type.
    pub fn contains_type(&self, ty: &u16) -> (r: bool)
        ensures
            r <==> dim_admits(self@.types, *ty),
    {
        vec_u16_admits(&self.evdev_type_whitelist, *ty)
    }

    /// The code dimension admits this event code.
    pub fn contains_code(&self, code: &u16) -> (r: bool)
        ensures
            r <==> dim_admits(self@.codes, *code),
    {
        vec_u16_admits(&self.evdev_code_whitelist, *code)
    }

    /// The value dimension admits this event value.
    pub fn contains_value(&self, value: &i32) -> (r: bool)
        ensures
            r <==> dim_admits(self@.values, *value),
    {
        vec_i32_admits(&self.evdev_value_whitelist, *value)
    }

    /// All three whitelists are empty: everything is admitted.
    pub fn is_wildcard(&self) -> (r: bool)
        ensures
            r <==> (self@.types.len() == 0 && self@.codes.len() == 0 && self@.values.len() == 0),
    {
        self.evdev_type_whitelist.len() == 0 && self.evdev_code_whitelist.len() == 0
            && self.evdev_value_whitelist.len() == 0
    }

    /// The admission decision for an input event.
    pub fn admits_input_event(&self, ty: u16, code: u16, value: i32) -> (r: bool)
        ensures
            r <==> spec_admits_input(self@, ty, code, value),
    {
        (self.contains_code(&code) && self.contains_type(&ty) && self.contains_value(&value))
            || self.is_wildcard()
    }
}

/// Law: an empty whitelist is a wildcard — it admits every device class —
/// and a non-empty whitelist admits exactly its members.
pub proof fn lemma_power_filter_wildcard(ws: Seq<Seq<char>>, dev_class: Seq<char>)
    ensures
        ws.len() == 0 ==> spec_admits_power(ws, dev_class),
        ws.len() > 0 ==> (spec_admits_power(ws, dev_class) <==> ws.contains(dev_class)),
{
}

/// Law: the input policy is the same conjunction in every dimension — a
/// value passes exactly when each whitelist is empty or lists it. The
/// all-empty wildcard adds nothing beyond its dimensions' own wildcards.
pub proof fn lemma_input_filter_policy(f: EvdevFilterView, ty: u16, code: u16, value: i32)
    ensures
        spec_admits_input(f, ty, code, value) <==> ((f.types.len() == 0 || f.types.contains(ty)) && (
        f.codes.len() == 0 || f.codes.contains(code)) && (f.values.len() == 0
            || f.values.contains(value))),
{
}

} // verus!
