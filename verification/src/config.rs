//! Configuration model: brightness plus an ordered, non-empty sequence of
//! pages, each page a set of buttons keyed uniquely by physical index.

use vstd::prelude::*;

verus! {

/// Highest brightness level the device accepts.
pub const MAX_BRIGHTNESS: u8 = 100;

/// One button binding: a physical key index, an optional image shown on
/// that key, the command the key triggers, and an optional working
/// directory for that command.
pub struct Button {
    pub index: u8,
    pub image_path: Option<String>,
    pub command: Vec<String>,
    pub work_dir: Option<String>,
}

/// One page of button bindings; the device shows one page at a time.
pub struct Page {
    pub buttons: Vec<Button>,
}

/// The whole configuration: a brightness level and the pages.
pub struct Config {
    pub brightness: u8,
    pub pages: Vec<Page>,
}

impl Button {
    /// A button is well formed when its command is non-empty: the first
    /// word is the verb (`"page"`, `"reload"`) or the executable name.
    pub open spec fn wf(self) -> bool {
        self.command@.len() > 0
    }
}

/// The first button in `s` bound to `index`, if any.
pub open spec fn find_in(s: Seq<Button>, index: u8) -> Option<Button>
    decreases s.len(),
{
    if s.len() == 0 {
        None
    } else if s[0].index == index {
        Some(s[0])
    } else {
        find_in(s.skip(1), index)
    }
}

impl Page {
    /// A page is well formed when every button is and no two buttons
    /// share a physical index.
    pub open spec fn wf(self) -> bool {
        &&& forall|i: int| 0 <= i < self.buttons@.len() ==> (#[trigger] self.buttons@[i]).wf()
        &&& forall|i: int, j: int|
            0 <= i < j < self.buttons@.len() ==> self.buttons@[i].index != self.buttons@[j].index
    }

    /// The button of this page bound to `index`, if any.
    pub open spec fn spec_find(self, index: u8) -> Option<Button> {
        find_in(self.buttons@, index)
    }

    /// Looks up the button bound to the given physical index; a miss
    /// means no button of this page is bound to that key.
    pub fn find_button(&self, index: u8) -> (r: Option<&Button>)
        ensures
            match r {
                Some(b) => self.spec_find(index) == Some(*b),
                None => self.spec_find(index) is None,
            },
    {
        let mut i: usize = 0;
        proof {
            assert(self.buttons@.skip(0) =~= self.buttons@);
        }
        while i < self.buttons.len()
            invariant
                i <= self.buttons@.len(),
                forall|j: int| 0 <= j < i ==> self.buttons@[j].index != index,
                find_in(self.buttons@.skip(i as int), index) == find_in(self.buttons@, index),
            decreases self.buttons@.len() - i,
        {
            if self.buttons[i].index == index {
                proof {
                    assert(self.buttons@.skip(i as int)[0] == self.buttons@[i as int]);
                }
                return Some(&self.buttons[i]);
            }
            proof {
                assert(self.buttons@.skip(i as int).skip(1) =~= self.buttons@.skip(i + 1));
            }
            i = i + 1;
        }
        proof {
            assert(self.buttons@.skip(i as int) =~= Seq::<Button>::empty());
        }
        None
    }
}

/// A button that a lookup returns is one of the sequence's members.
pub proof fn lemma_find_in_member(s: Seq<Button>, index: u8)
    requires
        find_in(s, index) is Some,
    ensures
        exists|i: int| 0 <= i < s.len() && s[i] == find_in(s, index).unwrap(),
    decreases s.len(),
{
    if s.len() > 0 && s[0].index != index {
        lemma_find_in_member(s.skip(1), index);
        let i = choose|i: int|
            0 <= i < s.skip(1).len() && s.skip(1)[i] == find_in(s.skip(1), index).unwrap();
        assert(s[i + 1] == find_in(s, index).unwrap());
    }
}

/// The image-bearing buttons of a button sequence, in order: each
/// physical index paired with its image path.
pub open spec fn image_jobs_of(s: Seq<Button>) -> Seq<(u8, Seq<char>)>
    decreases s.len(),
{
    if s.len() == 0 {
        Seq::empty()
    } else {
        let rest = image_jobs_of(s.skip(1));
        match s[0].image_path {
            Some(p) => seq![(s[0].index, p@)] + rest,
            None => rest,
        }
    }
}

impl Page {
    /// The buttons of this page that carry an image, in order: each
    /// physical index with its image path. A render uploads exactly
    /// these; buttons without an image stay blank after a reset.
    pub fn image_jobs(&self) -> (r: Vec<(u8, String)>)
        ensures
            r@.map_values(|t: (u8, String)| (t.0, t.1@)) == image_jobs_of(self.buttons@),
    {
        let mut out: Vec<(u8, String)> = Vec::new();
        let mut i: usize = 0;
        proof {
            assert(self.buttons@.skip(0) =~= self.buttons@);
            assert(out@.map_values(|t: (u8, String)| (t.0, t.1@)) =~= Seq::<(u8, Seq<
                char,
            >)>::empty());
        }
        while i < self.buttons.len()
            invariant
                i <= self.buttons@.len(),
                image_jobs_of(self.buttons@) == out@.map_values(|t: (u8, String)| (t.0, t.1@))
                    + image_jobs_of(self.buttons@.skip(i as int)),
            decreases self.buttons@.len() - i,
        {
            let ghost prev = out@;
            match &self.buttons[i].image_path {
                Some(p) => {
                    out.push((self.buttons[i].index, p.clone()));
                    proof {
                        assert(out@.map_values(|t: (u8, String)| (t.0, t.1@)) =~= prev.map_values(
                            |t: (u8, String)| (t.0, t.1@),
                        ) + seq![(self.buttons@[i as int].index, self.buttons@[i as int].image_path.unwrap()@)]);
                    }
                },
                None => {},
            }
            proof {
                assert(self.buttons@.skip(i as int).skip(1) =~= self.buttons@.skip(i + 1));
                assert(self.buttons@.skip(i as int)[0] == self.buttons@[i as int]);
            }
            i = i + 1;
        }
        proof {
            assert(self.buttons@.skip(i as int) =~= Seq::<Button>::empty());
        }
        out
    }
}

impl Config {
    /// A configuration is well formed when the brightness is on the
    /// device's 0 to 100 scale, there is at least one page, and every
    /// page is well formed. Page 0 is the initial active page.
    pub open spec fn wf(self) -> bool {
        &&& self.brightness <= MAX_BRIGHTNESS
        &&& self.pages@.len() > 0
        &&& forall|i: int| 0 <= i < self.pages@.len() ==> (#[trigger] self.pages@[i]).wf()
    }

    /// Decides whether this configuration satisfies every invariant the
    /// rest of the library relies on. A loaded configuration is accepted
    /// only when this returns true.
    pub fn validate(&self) -> (r: bool)
        ensures
            r == self.wf(),
    {
        if self.brightness > MAX_BRIGHTNESS {
            return false;
        }
        if self.pages.len() == 0 {
            return false;
        }
        let mut p: usize = 0;
        while p < self.pages.len()
            invariant
                p <= self.pages@.len(),
                forall|i: int| 0 <= i < p ==> (#[trigger] self.pages@[i]).wf(),
            decreases self.pages@.len() - p,
        {
            if !page_is_wf(&self.pages[p]) {
                return false;
            }
            p = p + 1;
        }
        true
    }
}

/// Decides whether one page is well formed: every command non-empty and
/// no two buttons sharing an index.
fn page_is_wf(page: &Page) -> (r: bool)
    ensures
        r == page.wf(),
{
    let n: usize = page.buttons.len();
    let mut i: usize = 0;
    while i < n
        invariant
            n == page.buttons@.len(),
            i <= n,
            forall|k: int| 0 <= k < i ==> (#[trigger] page.buttons@[k]).wf(),
            forall|k: int, l: int| 0 <= k < l < n && k < i ==> page.buttons@[k].index
                != page.buttons@[l].index,
        decreases n - i,
    {
        if page.buttons[i].command.len() == 0 {
            return false;
        }
        let mut j: usize = i + 1;
        while j < n
            invariant
                n == page.buttons@.len(),
                i < j <= n,
                forall|l: int| i < l < j ==> page.buttons@[i as int].index
                    != (#[trigger] page.buttons@[l]).index,
            decreases n - j,
        {
            if page.buttons[i].index == page.buttons[j].index {
                return false;
            }
            j = j + 1;
        }
        i = i + 1;
    }
    true
}

} // verus!
