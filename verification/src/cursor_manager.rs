//! The pointer's current cursor image and the animation clock of animated
//! named cursors. Times are milliseconds of a monotonic clock read by the
//! caller.

use vstd::prelude::*;
use crate::cursor_sprite::{animation_cycle, SoftwareCursorSprite};
use crate::cursor_theme::CursorSpriteCache;

verus! {

/// What the pointer shows: nothing, a named cursor from the theme (by icon
/// name), or a client surface `S`.
#[derive(Debug)]
pub enum CursorImageStatus<S> {
    Hidden,
    Named(String),
    Surface(S),
}

/// Clock of the current cursor animation.
#[derive(Debug)]
pub struct CursorAnimState {
    /// When the animation of the current named cursor started.
    pub started_at_ms: Option<u64>,
    /// Length of the animation cycle (0: static cursor).
    pub cycle_ms: u64,
}

impl Default for CursorAnimState {
    fn default() -> (s: Self)
        ensures
            s.started_at_ms is None,
            s.cycle_ms == 0,
    {
        CursorAnimState { started_at_ms: None, cycle_ms: 0 }
    }
}

pub struct CursorManager<S> {
    pub current_cursor: CursorImageStatus<S>,
    pub sprites: CursorSpriteCache,
    pub anim: CursorAnimState,
    /// Last named icon resolved, to notice changes and restart the animation.
    pub last_named_icon: Option<String>,
}

pub open spec fn is_named<S>(c: CursorImageStatus<S>) -> bool {
    c matches CursorImageStatus::Named(_)
}

pub open spec fn icon_view(o: Option<String>) -> Option<Seq<char>> {
    match o {
        Some(s) => Some(s@),
        None => None,
    }
}

/// Name of the default arrow cursor.
pub open spec fn default_icon_name() -> Seq<char> {
    "default"@
}

/// The named default arrow.
pub fn default_named<S>() -> (c: CursorImageStatus<S>)
    ensures
        c matches CursorImageStatus::Named(n) && n@ == default_icon_name(),
{
    CursorImageStatus::Named(String::from_str("default"))
}

impl<S> CursorManager<S> {
    pub fn new() -> (m: Self)
        ensures
            m.current_cursor matches CursorImageStatus::Named(n) && n@ == default_icon_name(),
            m.sprites.wf(),
            m.anim.started_at_ms is None,
            m.anim.cycle_ms == 0,
            m.last_named_icon is None,
    {
        CursorManager {
            current_cursor: default_named(),
            sprites: CursorSpriteCache::new(),
            anim: CursorAnimState::default(),
            last_named_icon: None,
        }
    }

    pub fn cursor_image(&self) -> (c: &CursorImageStatus<S>)
        ensures
            *c == self.current_cursor,
    {
        &self.current_cursor
    }

    /// Sets the cursor image. Leaving named cursors forgets the last named
    /// icon, so the next named cursor restarts its animation.
    pub fn set_cursor_image(&mut self, cursor: CursorImageStatus<S>)
        ensures
            final(self).current_cursor == cursor,
            final(self).last_named_icon == (if is_named(cursor) {
                old(self).last_named_icon
            } else {
                None
            }),
            final(self).anim == old(self).anim,
            final(self).sprites == old(self).sprites,
    {
        if !matches!(cursor, CursorImageStatus::Named(_)) {
            self.last_named_icon = None;
        }
        self.current_cursor = cursor;
    }

    /// Falls back to the default arrow when the client surface shown as the
    /// cursor is gone (`surface_alive` tells whether it still lives).
    pub fn check_cursor_image_surface_alive(&mut self, surface_alive: bool)
        ensures
            (old(self).current_cursor is Surface && !surface_alive) ==> (final(self).current_cursor matches CursorImageStatus::Named(n) && n@ == default_icon_name()),
            !(old(self).current_cursor is Surface && !surface_alive) ==> final(self).current_cursor
                == old(self).current_cursor,
            final(self).last_named_icon == old(self).last_named_icon,
            final(self).anim == old(self).anim,
            final(self).sprites == old(self).sprites,
    {
        if matches!(self.current_cursor, CursorImageStatus::Surface(_)) && !surface_alive {
            self.current_cursor = default_named();
        }
    }

    /// Time since the current animation started (0 before any).
    pub fn cursor_elapsed_ms(&self, now_ms: u64) -> (e: u64)
        ensures
            e == match self.anim.started_at_ms {
                Some(t) => if now_ms >= t {
                    (now_ms - t) as u64
                } else {
                    0
                },
                None => 0,
            },
    {
        match self.anim.started_at_ms {
            Some(t) => now_ms.saturating_sub(t),
            None => 0,
        }
    }

    /// Whether the current cursor is a named one that animates. Read only:
    /// it does not restart the animation.
    pub fn named_cursor_is_animated(&self) -> (b: bool)
        ensures
            b == (is_named(self.current_cursor) && self.anim.cycle_ms > 0),
    {
        matches!(self.current_cursor, CursorImageStatus::Named(_)) && self.anim.cycle_ms > 0
    }

    /// Records that `sprite` was resolved for the named `icon` at `now_ms`.
    /// The animation restarts only when the icon really changed, not on
    /// every rendered frame.
    pub fn note_sprite_resolved(&mut self, icon: &String, sprite: &SoftwareCursorSprite, now_ms: u64)
        requires
            icon_view(old(self).last_named_icon) != Some(icon@) ==> animation_cycle(sprite.frames@) <= u64::MAX,
        ensures
            final(self).last_named_icon matches Some(n) && n@ == icon@,
            icon_view(old(self).last_named_icon) == Some(icon@) ==> final(self).anim == old(self).anim,
            icon_view(old(self).last_named_icon) != Some(icon@) ==> final(self).anim.started_at_ms
                == Some(now_ms) && final(self).anim.cycle_ms == animation_cycle(sprite.frames@),
            final(self).current_cursor == old(self).current_cursor,
            final(self).sprites == old(self).sprites,
    {
        let same = match &self.last_named_icon {
            Some(last) => *last == *icon,
            None => false,
        };
        if !same {
            self.last_named_icon = Some(icon.clone());
            self.anim.started_at_ms = Some(now_ms);
            self.anim.cycle_ms = sprite_cycle_ms(sprite);
        }
    }
}

/// Length of a sprite's animation cycle: 0 for a static sprite, else the sum
/// of its frame delays.
pub fn sprite_cycle_ms(sprite: &SoftwareCursorSprite) -> (c: u64)
    requires
        animation_cycle(sprite.frames@) <= u64::MAX,
    ensures
        c == animation_cycle(sprite.frames@),
{
    if sprite.frames.len() <= 1 {
        return 0;
    }
    let ghost frames = sprite.frames@;
    let mut sum: u64 = 0;
    let mut k: usize = 0;
    while k < sprite.frames.len()
        invariant
            frames == sprite.frames@,
            k <= frames.len(),
            frames.len() > 1,
            crate::cursor_sprite::cycle_length(frames) <= u64::MAX,
            sum == crate::cursor_sprite::delay_prefix(frames, k as int),
        decreases frames.len() - k,
    {
        proof {
            crate::cursor_sprite::lemma_delay_prefix_monotone(frames, k + 1, frames.len() as int);
        }
        sum = sum + sprite.frames[k].delay_ms as u64;
        k = k + 1;
    }
    sum
}

} // verus!
