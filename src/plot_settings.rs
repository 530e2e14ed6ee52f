use vstd::prelude::*;

verus! {

/// Display switches of the efficiency plot.
#[derive(Debug, Clone, Copy, PartialEq, Eq, Structural)]
pub struct EguiPlotSettings {
    pub legend: bool,
    pub show_x_value: bool,
    pub show_y_value: bool,
    pub center_x_axis: bool,
    pub center_y_axis: bool,
    pub allow_zoom: bool,
    pub allow_boxed_zoom: bool,
    pub allow_drag: bool,
    pub allow_scroll: bool,
    pub clamp_grid: bool,
    pub show_grid: bool,
    pub sharp_grid_lines: bool,
    pub show_background: bool,
}

impl EguiPlotSettings {
    /// The settings a new plot starts with: everything interactive and visible,
    /// axes not centred, grid not clamped.
    pub open spec fn is_default(self) -> bool {
        &&& self.legend
        &&& self.show_x_value
        &&& self.show_y_value
        &&& !self.center_x_axis
        &&& !self.center_y_axis
        &&& self.allow_zoom
        &&& self.allow_boxed_zoom
        &&& self.allow_drag
        &&& self.allow_scroll
        &&& !self.clamp_grid
        &&& self.show_grid
        &&& self.sharp_grid_lines
        &&& self.show_background
    }

    /// Puts every switch back to its default value.
    pub fn reset(&mut self)
        ensures
            final(self).is_default(),
    {
        *self = Self::default();
    }
}

impl Default for EguiPlotSettings {
    fn default() -> (r: Self)
        ensures
            r.is_default(),
    {
        EguiPlotSettings {
            legend: true,
            show_x_value: true,
            show_y_value: true,
            center_x_axis: false,
            center_y_axis: false,
            allow_zoom: true,
            allow_boxed_zoom: true,
            allow_drag: true,
            allow_scroll: true,
            clamp_grid: false,
            show_grid: true,
            sharp_grid_lines: true,
            show_background: true,
        }
    }
}

} // verus!
