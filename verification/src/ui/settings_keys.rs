//! Keys in the settings.

use vstd::prelude::*;

use crate::ui::actions::{Action, ActionView};
use crate::ui::config::{
    allowed_delay, clamp_delay, longer_delay, next_verbosity, other_output_mode, other_view_mode,
    shorter_delay, ConfigView, ViewMode, WATCH_DELAY_STEP_MS,
};
use crate::ui::keys::Key;
use crate::ui::session::{Popups, Session, SessionView};

verus! {

/// The last line of the settings.
pub const LAST_SETTING: usize = 7;

/// The line of the settings that holds the delay.
pub const DELAY_SETTING: usize = 6;

pub open spec fn with_config(s: SessionView, c: ConfigView) -> SessionView {
    SessionView { config: c, ..s }
}

pub open spec fn with_delay(s: SessionView, ms: int) -> SessionView {
    with_config(s, ConfigView { manual_watch_delay_ms: allowed_delay(ms), ..s.config })
}

/// The other view: the pane of the focused leaf shows again, and results never
/// fill the screen.
pub open spec fn view_switched(s: SessionView) -> SessionView {
    let view_mode = other_view_mode(s.config.view_mode);
    SessionView {
        results_hidden: false,
        popups: Popups {
            fullscreen: s.popups.fullscreen && view_mode != ViewMode::Results,
            ..s.popups
        },
        ..with_config(s, ConfigView { view_mode, ..s.config })
    }
}

/// Watching is switched on or off.
pub open spec fn watch_switched(s: SessionView) -> SessionView {
    with_config(
        s,
        ConfigView {
            manual_watch_enabled: !s.config.manual_watch_enabled,
            manual_watch_delay_ms: allowed_delay(s.config.manual_watch_delay_ms as int),
            ..s.config
        },
    )
}

/// The setting in the line of the cursor is changed.
pub open spec fn setting_changed(s: SessionView) -> (SessionView, ActionView) {
    let c = s.config;
    match s.popups.settings_cursor {
        0 => (with_config(s, ConfigView { no_build: !c.no_build, ..c }), ActionView::Nothing),
        1 => (with_config(s, ConfigView { no_restore: !c.no_restore, ..c }), ActionView::Nothing),
        2 => (
            with_config(s, ConfigView { verbosity: next_verbosity(c.verbosity), ..c }),
            ActionView::Nothing,
        ),
        3 => (
            with_config(s, ConfigView { output_mode: other_output_mode(c.output_mode), ..c }),
            ActionView::Nothing,
        ),
        4 => (view_switched(s), ActionView::Nothing),
        5 => (watch_switched(s), ActionView::ApplyWatch),
        7 => (
            with_config(s, ConfigView { confirm_exit_on_esc: !c.confirm_exit_on_esc, ..c }),
            ActionView::Nothing,
        ),
        _ => (s, ActionView::Nothing),
    }
}

pub open spec fn settings_cursor_at(s: SessionView, cursor: int) -> SessionView {
    SessionView { popups: Popups { settings_cursor: cursor as usize, ..s.popups }, ..s }
}

/// The settings close, with a delay that is allowed.
pub open spec fn settings_closed(s: SessionView) -> SessionView {
    SessionView {
        popups: Popups { settings: false, ..s.popups },
        ..with_delay(s, s.config.manual_watch_delay_ms as int)
    }
}

/// A key that makes the delay longer finds room for that.
pub open spec fn delay_fits(s: SessionView, k: Key) -> bool {
    k == Key::Right && s.popups.settings_cursor == DELAY_SETTING ==> s.config.manual_watch_delay_ms
        <= u32::MAX - WATCH_DELAY_STEP_MS
}

pub open spec fn settings_key(s: SessionView, k: Key) -> (SessionView, ActionView) {
    let cursor = s.popups.settings_cursor;
    let delay = s.config.manual_watch_delay_ms;
    match k {
        Key::Esc | Key::Enter => (settings_closed(s), ActionView::SaveConfigAndApplyWatch),
        Key::Up => (
            if cursor > 0 {
                settings_cursor_at(s, cursor - 1)
            } else {
                s
            },
            ActionView::Nothing,
        ),
        Key::Down => (
            if cursor < LAST_SETTING {
                settings_cursor_at(s, cursor + 1)
            } else {
                s
            },
            ActionView::Nothing,
        ),
        Key::Left => (
            if cursor == DELAY_SETTING {
                with_delay(s, delay - WATCH_DELAY_STEP_MS)
            } else {
                s
            },
            ActionView::Nothing,
        ),
        Key::Right => (
            if cursor == DELAY_SETTING {
                with_delay(s, delay + WATCH_DELAY_STEP_MS)
            } else {
                s
            },
            ActionView::Nothing,
        ),
        Key::Char(c) => if c == ' ' {
            setting_changed(s)
        } else {
            (s, ActionView::Nothing)
        },
        _ => (s, ActionView::Nothing),
    }
}

impl Session {
    pub fn switch_view(&mut self)
        requires
            old(self).wf(),
        ensures
            final(self).wf(),
            final(self)@ == view_switched(old(self)@),
    {
        self.config.view_mode = self.config.view_mode.other();
        self.results_hidden = false;
        if self.config.view_mode == ViewMode::Results {
            self.popups.fullscreen = false;
        }
        assert(self@ =~= view_switched(old(self)@));
    }

    pub fn switch_watch(&mut self)
        requires
            old(self).wf(),
        ensures
            final(self).wf(),
            final(self)@ == watch_switched(old(self)@),
    {
        self.config.manual_watch_enabled = !self.config.manual_watch_enabled;
        self.config.manual_watch_delay_ms = clamp_delay(self.config.manual_watch_delay_ms);
        assert(self@ =~= watch_switched(old(self)@));
    }

    fn change_setting(&mut self) -> (r: Action)
        requires
            old(self).wf(),
        ensures
            final(self).wf(),
            (final(self)@, r@) == setting_changed(old(self)@),
    {
        let cursor: usize = self.popups.settings_cursor;
        if cursor == 4 {
            self.switch_view();
            return Action::Nothing;
        }
        if cursor == 5 {
            self.switch_watch();
            return Action::ApplyWatch;
        }
        if cursor == 0 {
            self.config.no_build = !self.config.no_build;
        } else if cursor == 1 {
            self.config.no_restore = !self.config.no_restore;
        } else if cursor == 2 {
            self.config.verbosity = self.config.verbosity.next();
        } else if cursor == 3 {
            self.config.output_mode = self.config.output_mode.other();
        } else if cursor == 7 {
            self.config.confirm_exit_on_esc = !self.config.confirm_exit_on_esc;
        }
        assert(self@ =~= setting_changed(old(self)@).0);
        Action::Nothing
    }

    fn set_delay(&mut self, ms: u32)
        requires
            old(self).wf(),
        ensures
            final(self).wf(),
            final(self)@ == with_config(
                old(self)@,
                ConfigView { manual_watch_delay_ms: ms, ..old(self)@.config },
            ),
    {
        self.config.manual_watch_delay_ms = ms;
        assert(self@ =~= with_config(
            old(self)@,
            ConfigView { manual_watch_delay_ms: ms, ..old(self)@.config },
        ));
    }

    fn set_settings_cursor(&mut self, cursor: usize)
        requires
            old(self).wf(),
        ensures
            final(self).wf(),
            final(self)@ == settings_cursor_at(old(self)@, cursor as int),
    {
        self.popups.settings_cursor = cursor;
        assert(self@ =~= settings_cursor_at(old(self)@, cursor as int));
    }

    fn close_settings(&mut self)
        requires
            old(self).wf(),
        ensures
            final(self).wf(),
            final(self)@ == settings_closed(old(self)@),
    {
        self.popups.settings = false;
        self.config.manual_watch_delay_ms = clamp_delay(self.config.manual_watch_delay_ms);
        assert(self@ =~= settings_closed(old(self)@));
    }

    pub fn press_in_settings(&mut self, k: Key) -> (r: Action)
        requires
            old(self).wf(),
            delay_fits(old(self)@, k),
        ensures
            final(self).wf(),
            (final(self)@, r@) == settings_key(old(self)@, k),
    {
        let cursor: usize = self.popups.settings_cursor;
        let delay: u32 = self.config.manual_watch_delay_ms;
        match k {
            Key::Esc | Key::Enter => {
                self.close_settings();
                Action::SaveConfigAndApplyWatch
            },
            Key::Up => {
                if cursor > 0 {
                    self.set_settings_cursor(cursor - 1);
                }
                Action::Nothing
            },
            Key::Down => {
                if cursor < LAST_SETTING {
                    self.set_settings_cursor(cursor + 1);
                }
                Action::Nothing
            },
            Key::Left => {
                if cursor == DELAY_SETTING {
                    self.set_delay(shorter_delay(delay));
                }
                Action::Nothing
            },
            Key::Right => {
                if cursor == DELAY_SETTING {
                    self.set_delay(longer_delay(delay));
                }
                Action::Nothing
            },
            Key::Char(c) => {
                if c == ' ' {
                    self.change_setting()
                } else {
                    Action::Nothing
                }
            },
            _ => Action::Nothing,
        }
    }
}

/// Switching the view twice, or watching twice, leads back, but for what is
/// hidden or was not allowed.
pub proof fn law_switching_twice_leads_back(s: SessionView)
    requires
        !s.results_hidden,
        !s.popups.fullscreen,
        allowed_delay(s.config.manual_watch_delay_ms as int) == s.config.manual_watch_delay_ms,
    ensures
        view_switched(view_switched(s)) == s,
        watch_switched(watch_switched(s)) == s,
{
    assert(view_switched(view_switched(s)) =~= s);
    assert(watch_switched(watch_switched(s)) =~= s);
}

} // verus!
