//! Global hotkey managers: the interface, and a stub that binds no system key
//! and fires its callbacks on demand. `F` is the type of a callback.
use vstd::prelude::*;

verus! {

/// A source of hotkey press and release events.
pub trait HotkeyManager<F>: Send {
    fn set_on_press(&mut self, cb: F);

    fn set_on_release(&mut self, cb: F);

    fn start(&mut self) -> Result<(), String>;

    fn stop(&mut self);
}

/// A hotkey manager bound to no system key; `simulate_press` and
/// `simulate_release` fire its callbacks.
pub struct StubHotkeyManager<F> {
    on_press: Option<F>,
    on_release: Option<F>,
    started: bool,
}

impl<F> StubHotkeyManager<F> {
    pub closed spec fn press_callback(&self) -> Option<F> {
        self.on_press
    }

    pub closed spec fn release_callback(&self) -> Option<F> {
        self.on_release
    }

    pub closed spec fn is_started(&self) -> bool {
        self.started
    }

    pub fn new() -> (r: Self)
        ensures
            r.press_callback() is None,
            r.release_callback() is None,
            !r.is_started(),
    {
        StubHotkeyManager { on_press: None, on_release: None, started: false }
    }
}

impl<F: Fn()> StubHotkeyManager<F> {
    /// Fires the press callback, if one is set.
    pub fn simulate_press(&self)
        requires
            self.press_callback() matches Some(cb) ==> cb.requires(()),
        ensures
            self.press_callback() matches Some(cb) ==> cb.ensures((), ()),
    {
        if let Some(ref cb) = self.on_press {
            (cb)();
        }
    }

    /// Fires the release callback, if one is set.
    pub fn simulate_release(&self)
        requires
            self.release_callback() matches Some(cb) ==> cb.requires(()),
        ensures
            self.release_callback() matches Some(cb) ==> cb.ensures((), ()),
    {
        if let Some(ref cb) = self.on_release {
            (cb)();
        }
    }
}

impl<F: Send> HotkeyManager<F> for StubHotkeyManager<F> {
    fn set_on_press(&mut self, cb: F)
        ensures
            final(self).press_callback() == Some(cb),
            final(self).release_callback() == old(self).release_callback(),
            final(self).is_started() == old(self).is_started(),
    {
        self.on_press = Some(cb);
    }

    fn set_on_release(&mut self, cb: F)
        ensures
            final(self).release_callback() == Some(cb),
            final(self).press_callback() == old(self).press_callback(),
            final(self).is_started() == old(self).is_started(),
    {
        self.on_release = Some(cb);
    }

    /// Starts the manager; a manager already started refuses.
    fn start(&mut self) -> (r: Result<(), String>)
        ensures
            final(self).is_started(),
            final(self).press_callback() == old(self).press_callback(),
            final(self).release_callback() == old(self).release_callback(),
            old(self).is_started() ==> (r matches Err(e) && e@ == "Hotkey manager already started"@),
            !old(self).is_started() ==> r is Ok,
    {
        if self.started {
            return Err(String::from_str("Hotkey manager already started"));
        }
        self.started = true;
        Ok(())
    }

    fn stop(&mut self)
        ensures
            !final(self).is_started(),
            final(self).press_callback() == old(self).press_callback(),
            final(self).release_callback() == old(self).release_callback(),
    {
        self.started = false;
    }
}

} // verus!
