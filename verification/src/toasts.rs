//! The toast stack: what a toast says, its tone and its one optional
//! action, and the list that `show` appends to and `dismiss` removes from.
//! The action's callback is the caller's own type, carried through.

use vstd::prelude::*;

verus! {

/// A toast's tone.
#[derive(Debug, Clone, Copy, PartialEq, Eq)]
pub enum ToastKind {
    Default,
    Success,
    Error,
}

impl ToastKind {
    /// The tone's classes.
    pub fn classes(self) -> (s: &'static str)
        ensures
            s@ == match self {
                ToastKind::Default => "bg-popover text-popover-foreground border"@,
                ToastKind::Success => "bg-primary text-primary-foreground"@,
                ToastKind::Error => "bg-destructive text-white"@,
            },
    {
        match self {
            ToastKind::Default => "bg-popover text-popover-foreground border",
            ToastKind::Success => "bg-primary text-primary-foreground",
            ToastKind::Error => "bg-destructive text-white",
        }
    }
}

/// A toast's button: its label and what it runs.
#[derive(Debug, Clone)]
pub struct ToastAction<A> {
    pub label: String,
    pub on_action: A,
}

/// What to show: the message, its tone, an optional action, and how long
/// it stays (0: until dismissed).
#[derive(Debug, Clone)]
pub struct ToastOptions<A> {
    pub message: String,
    pub kind: ToastKind,
    pub action: Option<ToastAction<A>>,
    pub duration_ms: u64,
}

impl<A> ToastOptions<A> {
    /// A plain toast with this message, shown for five seconds.
    pub fn message(msg: String) -> (o: ToastOptions<A>)
        ensures
            o.message == msg,
            o.kind == ToastKind::Default,
            o.action is None,
            o.duration_ms == 5000,
    {
        ToastOptions { message: msg, kind: ToastKind::Default, action: None, duration_ms: 5000 }
    }

    /// The same toast in another tone.
    pub fn kind(self, kind: ToastKind) -> (o: ToastOptions<A>)
        ensures
            o.message == self.message,
            o.kind == kind,
            o.action == self.action,
            o.duration_ms == self.duration_ms,
    {
        ToastOptions { kind, ..self }
    }

    /// The same toast with a button.
    pub fn action(self, label: String, on_action: A) -> (o: ToastOptions<A>)
        ensures
            o.message == self.message,
            o.kind == self.kind,
            o.action == Some(ToastAction { label, on_action }),
            o.duration_ms == self.duration_ms,
    {
        ToastOptions { action: Some(ToastAction { label, on_action }), ..self }
    }
}

/// One toast on screen.
#[derive(Debug, Clone)]
pub struct Toast<A> {
    pub id: usize,
    pub message: String,
    pub kind: ToastKind,
    pub action: Option<ToastAction<A>>,
}

/// The stack of toasts on screen, oldest first, and the next id to give.
#[derive(Debug)]
pub struct ToastList<A> {
    toasts: Vec<Toast<A>>,
    next_id: usize,
}

impl<A> View for ToastList<A> {
    type V = (Seq<Toast<A>>, usize);

    closed spec fn view(&self) -> (Seq<Toast<A>>, usize) {
        (self.toasts@, self.next_id)
    }
}

/// Ids rise along the stack and stay below the next one to give.
pub open spec fn ids_rise<A>(toasts: Seq<Toast<A>>, next_id: usize) -> bool {
    &&& forall|i: int, j: int| 0 <= i < j < toasts.len() ==> #[trigger] toasts[i].id < #[trigger] toasts[j].id
    &&& forall|i: int| 0 <= i < toasts.len() ==> #[trigger] toasts[i].id < next_id
}

/// The toasts other than the one with this id, in order.
pub open spec fn without_id<A>(toasts: Seq<Toast<A>>, id: usize) -> Seq<Toast<A>>
    decreases toasts.len(),
{
    if toasts.len() == 0 {
        Seq::empty()
    } else if toasts.last().id == id {
        without_id(toasts.drop_last(), id)
    } else {
        without_id(toasts.drop_last(), id).push(toasts.last())
    }
}

impl<A> ToastList<A> {
    /// No toasts yet.
    pub fn new() -> (l: ToastList<A>)
        ensures
            l@ == (Seq::<Toast<A>>::empty(), 0usize),
    {
        ToastList { toasts: Vec::new(), next_id: 0 }
    }

    /// The toasts on screen, oldest first.
    pub fn toasts(&self) -> (v: &Vec<Toast<A>>)
        ensures
            v@ == self@.0,
    {
        &self.toasts
    }

    /// Shows a toast: it goes on the end of the stack under the next id,
    /// which is returned (the caller schedules its expiry when it has a
    /// duration).
    pub fn show(&mut self, opts: ToastOptions<A>) -> (id: usize)
        requires
            old(self)@.1 < usize::MAX,
        ensures
            id == old(self)@.1,
            final(self)@.1 == old(self)@.1 + 1,
            final(self)@.0 == old(self)@.0.push(
                Toast { id, message: opts.message, kind: opts.kind, action: opts.action },
            ),
    {
        let id = self.next_id;
        self.next_id = id + 1;
        self.toasts.push(
            Toast { id, message: opts.message, kind: opts.kind, action: opts.action },
        );
        id
    }

    /// Takes the toast with this id off the stack (its button, its close,
    /// or its expiry); the others keep their order.
    pub fn dismiss(&mut self, id: usize)
        ensures
            final(self)@.1 == old(self)@.1,
            final(self)@.0 == without_id(old(self)@.0, id),
    {
        let ghost src = self.toasts@;
        let mut rest: Vec<Toast<A>> = Vec::new();
        std::mem::swap(&mut rest, &mut self.toasts);
        let n = rest.len();
        assert(src.len() == n);
        let mut kept: Vec<Toast<A>> = Vec::new();
        let mut i: usize = 0;
        while rest.len() > 0
            invariant
                i + rest@.len() == src.len(),
                src.len() <= usize::MAX,
                rest@ == src.skip(i as int),
                kept@ == without_id(src.take(i as int), id),
            decreases rest@.len(),
        {
            let t = rest.remove(0);
            proof {
                assert(t == src[i as int]);
                assert(rest@ =~= src.skip(i + 1));
                assert(src.take(i + 1).drop_last() =~= src.take(i as int));
                assert(src.take(i + 1).last() == t);
            }
            if t.id != id {
                kept.push(t);
            }
            i = i + 1;
        }
        proof {
            assert(src.take(src.len() as int) =~= src);
        }
        self.toasts = kept;
    }
}

// --------------------------------------------------------------- the laws --

/// A list with no toast of this id is unchanged by dismissing it.
proof fn lemma_without_absent<A>(toasts: Seq<Toast<A>>, id: usize)
    requires
        forall|i: int| 0 <= i < toasts.len() ==> #[trigger] toasts[i].id != id,
    ensures
        without_id(toasts, id) == toasts,
    decreases toasts.len(),
{
    if toasts.len() > 0 {
        let d = toasts.drop_last();
        assert forall|i: int| 0 <= i < d.len() implies #[trigger] d[i].id != id by {
            assert(d[i] == toasts[i]);
        }
        lemma_without_absent(d, id);
        assert(toasts.last() == toasts[toasts.len() - 1]);
        assert(d.push(toasts.last()) =~= toasts);
    }
}

/// Dismissing the toast just shown leaves the stack as it was before:
/// the new id belongs to no earlier toast.
pub proof fn law_dismissing_a_shown_toast_restores_the_stack<A>(
    toasts: Seq<Toast<A>>,
    next_id: usize,
    shown: Toast<A>,
)
    requires
        ids_rise(toasts, next_id),
        shown.id == next_id,
    ensures
        without_id(toasts.push(shown), next_id) == toasts,
{
    let after = toasts.push(shown);
    assert(after.drop_last() =~= toasts);
    assert forall|i: int| 0 <= i < toasts.len() implies #[trigger] toasts[i].id != next_id by {}
    lemma_without_absent(toasts, next_id);
}

/// Showing keeps ids rising along the stack.
pub proof fn law_show_keeps_ids_rising<A>(toasts: Seq<Toast<A>>, next_id: usize, shown: Toast<A>)
    requires
        ids_rise(toasts, next_id),
        shown.id == next_id,
        next_id < usize::MAX,
    ensures
        ids_rise(toasts.push(shown), (next_id + 1) as usize),
{
    let after = toasts.push(shown);
    assert forall|i: int, j: int| 0 <= i < j < after.len() implies #[trigger] after[i].id
        < #[trigger] after[j].id by {
        assert(after[i] == toasts[i]);
        if j < toasts.len() {
            assert(after[j] == toasts[j]);
        }
    }
}

} // verus!
