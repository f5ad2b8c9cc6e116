//! The message log that the simulation appends to, and the one piece of HUD
//! arithmetic (status-bar fill width). Painting anything is the display
//! layer's concern, not this library's.
use vstd::prelude::*;

use crate::tiles::Color;

verus! {

/// An append-only log of colored messages, oldest first. The renderer walks
/// it backwards to show the newest lines.
pub struct Messages {
    messages: Vec<(String, Color)>,
}

impl View for Messages {
    type V = Seq<(String, Color)>;

    closed spec fn view(&self) -> Seq<(String, Color)> {
        self.messages@
    }
}

impl Messages {
    /// An empty log.
    pub fn new() -> (m: Messages)
        ensures
            m@ == Seq::<(String, Color)>::empty(),
    {
        Messages { messages: Vec::new() }
    }

    /// Append one message; nothing already logged moves or changes.
    pub fn add(&mut self, message: String, color: Color)
        ensures
            final(self)@ == old(self)@.push((message, color)),
    {
        self.messages.push((message, color));
    }

    /// The logged messages, oldest first; the caller may iterate them in
    /// either direction.
    pub fn iter(&self) -> (r: &Vec<(String, Color)>)
        ensures
            r@ == self@,
    {
        &self.messages
    }

    /// How many messages have been logged.
    pub fn len(&self) -> (n: usize)
        ensures
            n == self@.len(),
    {
        self.messages.len()
    }
}

/// The filled width of a stat bar (current `value` out of `maximum`, scaled
/// to `total_width` cells, rounded down). The painting itself is left to the
/// display layer.
pub fn render_bar(total_width: i32, value: i32, maximum: i32) -> (w: i32)
    requires
        0 < maximum <= 1000000,
        0 <= value <= maximum,
        0 <= total_width <= 1000000,
    ensures
        w == (value * total_width) / (maximum as int),
        0 <= w <= total_width,
{
    proof {
        assert((value as int) * (total_width as int) <= (maximum as int) * (total_width as int)
            <= 1000000000000) by (nonlinear_arith)
            requires
                0 <= value <= maximum <= 1000000,
                0 <= total_width <= 1000000,
        ;
        assert(0 <= (value as int) * (total_width as int)) by (nonlinear_arith)
            requires
                0 <= value,
                0 <= total_width,
        ;
    }
    let wide = (value as i64) * (total_width as i64) / (maximum as i64);
    proof {
        assert((maximum as int) * (total_width as int) / (maximum as int) == total_width)
            by (nonlinear_arith)
            requires
                0 < maximum,
                0 <= total_width,
        ;
        vstd::arithmetic::div_mod::lemma_div_is_ordered(
            (value as int) * (total_width as int),
            (maximum as int) * (total_width as int),
            maximum as int,
        );
    }
    wide as i32
}

} // verus!
