//! The design system's fixed vocabularies: each variant, size and
//! placement of the vendored components, and the classes or attribute value
//! it renders as.

use vstd::prelude::*;

verus! {

/// A button's look.
#[derive(Debug, Clone, Copy, PartialEq, Eq)]
pub enum ButtonVariant {
    Default,
    Destructive,
    Outline,
    Secondary,
    Ghosted,
    Accent,
    Link,
}

impl ButtonVariant {
    /// The variant's classes.
    pub fn classes(self) -> (s: &'static str)
        ensures
            s@ == match self {
                ButtonVariant::Default => "bg-primary text-primary-foreground shadow-xs hover:bg-primary/90"@,
                ButtonVariant::Destructive => "bg-destructive text-white shadow-xs hover:bg-destructive/90 focus-visible:ring-destructive/20 dark:focus-visible:ring-destructive/40 dark:bg-destructive/60"@,
                ButtonVariant::Outline => "border bg-background shadow-xs hover:bg-accent hover:text-accent-foreground dark:bg-input/30 dark:border-input dark:hover:bg-input/5"@,
                ButtonVariant::Secondary => "bg-secondary text-secondary-foreground shadow-xs hover:bg-secondary/80"@,
                ButtonVariant::Ghosted => "hover:bg-accent hover:text-accent-foreground dark:hover:bg-accent/50"@,
                ButtonVariant::Accent => "bg-accent text-accent-foreground hover:bg-accent/80"@,
                ButtonVariant::Link => "text-primary underline-offset-4 hover:underline"@,
            },
    {
        match self {
            ButtonVariant::Default => "bg-primary text-primary-foreground shadow-xs hover:bg-primary/90",
            ButtonVariant::Destructive => "bg-destructive text-white shadow-xs hover:bg-destructive/90 focus-visible:ring-destructive/20 dark:focus-visible:ring-destructive/40 dark:bg-destructive/60",
            ButtonVariant::Outline => "border bg-background shadow-xs hover:bg-accent hover:text-accent-foreground dark:bg-input/30 dark:border-input dark:hover:bg-input/5",
            ButtonVariant::Secondary => "bg-secondary text-secondary-foreground shadow-xs hover:bg-secondary/80",
            ButtonVariant::Ghosted => "hover:bg-accent hover:text-accent-foreground dark:hover:bg-accent/50",
            ButtonVariant::Accent => "bg-accent text-accent-foreground hover:bg-accent/80",
            ButtonVariant::Link => "text-primary underline-offset-4 hover:underline",
        }
    }

}

/// A button's size.
#[derive(Debug, Clone, Copy, PartialEq, Eq)]
pub enum ButtonSize {
    Default,
    Sm,
    Lg,
    Icon,
    IconSm,
    IconXs,
}

impl ButtonSize {
    /// The size's classes.
    pub fn classes(self) -> (s: &'static str)
        ensures
            s@ == match self {
                ButtonSize::Default => "h-9 px-4 py-2 has-[>svg]:px-3"@,
                ButtonSize::Sm => "h-8 rounded-md gap-1.5 px-3 has-[>svg]:px-2.5"@,
                ButtonSize::Lg => "h-10 rounded-md px-6 has-[>svg]:px-4"@,
                ButtonSize::Icon => "size-9"@,
                ButtonSize::IconSm => "size-8 rounded-md"@,
                ButtonSize::IconXs => "size-6 rounded-md"@,
            },
    {
        match self {
            ButtonSize::Default => "h-9 px-4 py-2 has-[>svg]:px-3",
            ButtonSize::Sm => "h-8 rounded-md gap-1.5 px-3 has-[>svg]:px-2.5",
            ButtonSize::Lg => "h-10 rounded-md px-6 has-[>svg]:px-4",
            ButtonSize::Icon => "size-9",
            ButtonSize::IconSm => "size-8 rounded-md",
            ButtonSize::IconXs => "size-6 rounded-md",
        }
    }

}

/// A badge's size.
#[derive(Debug, Clone, Copy, PartialEq, Eq)]
pub enum BadgeSize {
    Default,
    Sm,
    Lg,
}

impl BadgeSize {
    /// The size's classes.
    pub fn classes(self) -> (s: &'static str)
        ensures
            s@ == match self {
                BadgeSize::Default => "px-2.5 py-0.5 text-xs"@,
                BadgeSize::Sm => "px-1.5 py-0.5 text-[10px]"@,
                BadgeSize::Lg => "px-3 py-1 text-sm"@,
            },
    {
        match self {
            BadgeSize::Default => "px-2.5 py-0.5 text-xs",
            BadgeSize::Sm => "px-1.5 py-0.5 text-[10px]",
            BadgeSize::Lg => "px-3 py-1 text-sm",
        }
    }

}

/// An input's `type`.
#[derive(Debug, Clone, Copy, PartialEq, Eq)]
pub enum InputType {
    Text,
    Email,
    Password,
    Number,
    Tel,
    Url,
    Search,
    Date,
    Time,
    DatetimeLocal,
    Month,
    Week,
    Color,
    File,
    Hidden,
}

impl InputType {
    /// The `type` attribute's value.
    pub fn as_str(self) -> (s: &'static str)
        ensures
            s@ == match self {
                InputType::Text => "text"@,
                InputType::Email => "email"@,
                InputType::Password => "password"@,
                InputType::Number => "number"@,
                InputType::Tel => "tel"@,
                InputType::Url => "url"@,
                InputType::Search => "search"@,
                InputType::Date => "date"@,
                InputType::Time => "time"@,
                InputType::DatetimeLocal => "datetime-local"@,
                InputType::Month => "month"@,
                InputType::Week => "week"@,
                InputType::Color => "color"@,
                InputType::File => "file"@,
                InputType::Hidden => "hidden"@,
            },
    {
        match self {
            InputType::Text => "text",
            InputType::Email => "email",
            InputType::Password => "password",
            InputType::Number => "number",
            InputType::Tel => "tel",
            InputType::Url => "url",
            InputType::Search => "search",
            InputType::Date => "date",
            InputType::Time => "time",
            InputType::DatetimeLocal => "datetime-local",
            InputType::Month => "month",
            InputType::Week => "week",
            InputType::Color => "color",
            InputType::File => "file",
            InputType::Hidden => "hidden",
        }
    }

}

/// Where an input group's addon sits.
#[derive(Debug, Clone, Copy, PartialEq, Eq)]
pub enum InputGroupAddonAlign {
    InlineStart,
    InlineEnd,
    BlockStart,
    BlockEnd,
}

impl InputGroupAddonAlign {
    /// The placement's classes.
    pub fn classes(self) -> (s: &'static str)
        ensures
            s@ == match self {
                InputGroupAddonAlign::InlineStart => "order-first pl-3 has-[>button]:ml-[-0.45rem] has-[>kbd]:ml-[-0.35rem]"@,
                InputGroupAddonAlign::InlineEnd => "order-last pr-3 has-[>button]:mr-[-0.45rem] has-[>kbd]:mr-[-0.35rem]"@,
                InputGroupAddonAlign::BlockStart => "order-first w-full justify-start px-3 pt-3 [.border-b]:pb-3 group-has-[>input]/input-group:pt-2.5"@,
                InputGroupAddonAlign::BlockEnd => "order-last w-full justify-start px-3 pb-3 [.border-t]:pt-3 group-has-[>input]/input-group:pb-2.5"@,
            },
    {
        match self {
            InputGroupAddonAlign::InlineStart => "order-first pl-3 has-[>button]:ml-[-0.45rem] has-[>kbd]:ml-[-0.35rem]",
            InputGroupAddonAlign::InlineEnd => "order-last pr-3 has-[>button]:mr-[-0.45rem] has-[>kbd]:mr-[-0.35rem]",
            InputGroupAddonAlign::BlockStart => "order-first w-full justify-start px-3 pt-3 [.border-b]:pb-3 group-has-[>input]/input-group:pt-2.5",
            InputGroupAddonAlign::BlockEnd => "order-last w-full justify-start px-3 pb-3 [.border-t]:pt-3 group-has-[>input]/input-group:pb-2.5",
        }
    }

    /// The placement's `data-align` value.
    pub fn attr(self) -> (s: &'static str)
        ensures
            s@ == match self {
                InputGroupAddonAlign::InlineStart => "inline-start"@,
                InputGroupAddonAlign::InlineEnd => "inline-end"@,
                InputGroupAddonAlign::BlockStart => "block-start"@,
                InputGroupAddonAlign::BlockEnd => "block-end"@,
            },
    {
        match self {
            InputGroupAddonAlign::InlineStart => "inline-start",
            InputGroupAddonAlign::InlineEnd => "inline-end",
            InputGroupAddonAlign::BlockStart => "block-start",
            InputGroupAddonAlign::BlockEnd => "block-end",
        }
    }

}

/// An input group button's size.
#[derive(Debug, Clone, Copy, PartialEq, Eq)]
pub enum InputGroupButtonSize {
    Xs,
    Sm,
    IconXs,
    IconSm,
}

impl InputGroupButtonSize {
    /// The size's classes.
    pub fn classes(self) -> (s: &'static str)
        ensures
            s@ == match self {
                InputGroupButtonSize::Xs => "h-6 gap-1 px-2 rounded-[calc(var(--radius)-5px)] [&>svg:not([class*='size-'])]:size-3.5 has-[>svg]:px-2"@,
                InputGroupButtonSize::Sm => "h-8 px-2.5 gap-1.5 rounded-md has-[>svg]:px-2.5"@,
                InputGroupButtonSize::IconXs => "size-6 rounded-[calc(var(--radius)-5px)] p-0 has-[>svg]:p-0"@,
                InputGroupButtonSize::IconSm => "size-8 p-0 has-[>svg]:p-0"@,
            },
    {
        match self {
            InputGroupButtonSize::Xs => "h-6 gap-1 px-2 rounded-[calc(var(--radius)-5px)] [&>svg:not([class*='size-'])]:size-3.5 has-[>svg]:px-2",
            InputGroupButtonSize::Sm => "h-8 px-2.5 gap-1.5 rounded-md has-[>svg]:px-2.5",
            InputGroupButtonSize::IconXs => "size-6 rounded-[calc(var(--radius)-5px)] p-0 has-[>svg]:p-0",
            InputGroupButtonSize::IconSm => "size-8 p-0 has-[>svg]:p-0",
        }
    }

}

/// An item's look.
#[derive(Debug, Clone, Copy, PartialEq, Eq)]
pub enum ItemVariant {
    Default,
    Outline,
    Muted,
}

impl ItemVariant {
    /// The variant's classes.
    pub fn classes(self) -> (s: &'static str)
        ensures
            s@ == match self {
                ItemVariant::Default => "bg-transparent"@,
                ItemVariant::Outline => "border-border"@,
                ItemVariant::Muted => "bg-muted/50"@,
            },
    {
        match self {
            ItemVariant::Default => "bg-transparent",
            ItemVariant::Outline => "border-border",
            ItemVariant::Muted => "bg-muted/50",
        }
    }

}

/// An item's size.
#[derive(Debug, Clone, Copy, PartialEq, Eq)]
pub enum ItemSize {
    Default,
    Sm,
    Xs,
}

impl ItemSize {
    /// The size's classes.
    pub fn classes(self) -> (s: &'static str)
        ensures
            s@ == match self {
                ItemSize::Default => "p-4 gap-4"@,
                ItemSize::Sm => "py-3 px-4 gap-2.5"@,
                ItemSize::Xs => "py-2 px-3 gap-2"@,
            },
    {
        match self {
            ItemSize::Default => "p-4 gap-4",
            ItemSize::Sm => "py-3 px-4 gap-2.5",
            ItemSize::Xs => "py-2 px-3 gap-2",
        }
    }

}

/// An item's media slot.
#[derive(Debug, Clone, Copy, PartialEq, Eq)]
pub enum ItemMediaVariant {
    Default,
    Icon,
    Image,
}

impl ItemMediaVariant {
    /// The slot's classes.
    pub fn classes(self) -> (s: &'static str)
        ensures
            s@ == match self {
                ItemMediaVariant::Default => "bg-transparent"@,
                ItemMediaVariant::Icon => "size-8 border rounded-sm bg-muted [&_svg:not([class*='size-'])]:size-4"@,
                ItemMediaVariant::Image => "size-10 rounded-sm overflow-hidden [&_img]:size-full [&_img]:object-cover"@,
            },
    {
        match self {
            ItemMediaVariant::Default => "bg-transparent",
            ItemMediaVariant::Icon => "size-8 border rounded-sm bg-muted [&_svg:not([class*='size-'])]:size-4",
            ItemMediaVariant::Image => "size-10 rounded-sm overflow-hidden [&_img]:size-full [&_img]:object-cover",
        }
    }

}

/// The edge a sheet slides in from.
#[derive(Debug, Clone, Copy, PartialEq, Eq)]
pub enum SheetDirection {
    Right,
    Left,
    Top,
    Bottom,
}

impl SheetDirection {
    /// The direction's name.
    pub fn as_str(self) -> (s: &'static str)
        ensures
            s@ == match self {
                SheetDirection::Right => "Right"@,
                SheetDirection::Left => "Left"@,
                SheetDirection::Top => "Top"@,
                SheetDirection::Bottom => "Bottom"@,
            },
    {
        match self {
            SheetDirection::Right => "Right",
            SheetDirection::Left => "Left",
            SheetDirection::Top => "Top",
            SheetDirection::Bottom => "Bottom",
        }
    }

    /// Where the sheet rests while closed.
    pub fn closed_class(self) -> (s: &'static str)
        ensures
            s@ == match self {
                SheetDirection::Right => "translate-x-full"@,
                SheetDirection::Left => "-translate-x-full"@,
                SheetDirection::Top => "-translate-y-full"@,
                SheetDirection::Bottom => "translate-y-full"@,
            },
    {
        match self {
            SheetDirection::Right => "translate-x-full",
            SheetDirection::Left => "-translate-x-full",
            SheetDirection::Top => "-translate-y-full",
            SheetDirection::Bottom => "translate-y-full",
        }
    }

    /// Where the sheet sits and how large it is.
    pub fn initial_position(self) -> (s: &'static str)
        ensures
            s@ == match self {
                SheetDirection::Right => "top-0 right-0 h-full w-[400px]"@,
                SheetDirection::Left => "top-0 left-0 h-full w-[400px]"@,
                SheetDirection::Top => "top-0 left-0 w-full h-[400px]"@,
                SheetDirection::Bottom => "bottom-0 left-0 w-full h-[400px]"@,
            },
    {
        match self {
            SheetDirection::Right => "top-0 right-0 h-full w-[400px]",
            SheetDirection::Left => "top-0 left-0 h-full w-[400px]",
            SheetDirection::Top => "top-0 left-0 w-full h-[400px]",
            SheetDirection::Bottom => "bottom-0 left-0 w-full h-[400px]",
        }
    }

}

/// A separator's direction.
#[derive(Debug, Clone, Copy, PartialEq, Eq)]
pub enum SeparatorOrientation {
    Default,
    Vertical,
}

impl SeparatorOrientation {
    /// The direction's classes.
    pub fn classes(self) -> (s: &'static str)
        ensures
            s@ == match self {
                SeparatorOrientation::Default => "w-full h-[1px]"@,
                SeparatorOrientation::Vertical => "h-full w-[1px]"@,
            },
    {
        match self {
            SeparatorOrientation::Default => "w-full h-[1px]",
            SeparatorOrientation::Vertical => "h-full w-[1px]",
        }
    }

}

/// A toggle group's look.
#[derive(Debug, Clone, Copy, PartialEq, Eq)]
pub enum ToggleGroupVariant {
    Default,
    Outline,
}

/// A toggle group's direction.
#[derive(Debug, Clone, Copy, PartialEq, Eq)]
pub enum ToggleGroupOrientation {
    Horizontal,
    Vertical,
}

/// The side a hover card opens on.
#[derive(Debug, Clone, Copy, PartialEq, Eq)]
pub enum HoverCardSide {
    Top,
    Bottom,
    Left,
    Right,
}

/// How a popover lines up with its trigger.
#[derive(Debug, Clone, Copy, PartialEq, Eq)]
pub enum PopoverAlign {
    Start,
    StartOuter,
    End,
    EndOuter,
    Center,
}

} // verus!
