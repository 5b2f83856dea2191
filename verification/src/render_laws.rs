//! What renderers give of a registry, call by call and as a whole.

use vstd::prelude::*;
use crate::exposition;
use crate::exposition::Failure;
use crate::exposition::Limits;
use crate::registry::GroupRef;
use crate::registry::Registry;
use crate::render;
use crate::render::RenderError;
use crate::render::Renderer;
use crate::sink;
use crate::sink::FormatError;
use crate::step::Step;
use crate::text;
use crate::transcript;

verus! {

/// A new renderer stands at the first line of all groups that are registered,
/// has seen no failure, and is done only where there is no group.
pub proof fn law_renderers_begin_at_the_first_line<
    'a,
    'b,
    const N: usize,
    const L: usize,
    const H: usize,
    const C: bool,
    const M: usize,
>()
    ensures
        forall|registry: &'a Registry<'b, M>, r: Renderer<N, L, H, C>| #[trigger]
            call_ensures(Renderer::<N, L, H, C>::from_registry::<M>, (registry,), r) ==> {
                &&& r.group_total() == registry.held().len()
                &&& r.failure() is None
                &&& r.cursor().g == 0 && r.cursor().m == 0
                &&& r.cursor().step == Step::Help
                &&& r.cursor().cumulative == 0
            },
        forall|registry: &'a Registry<'b, M>, r: Renderer<16, 256, 16, C>| #[trigger]
            call_ensures(Renderer::<16, 256, 16, C>::new::<M>, (registry,), r) ==> {
                &&& r.group_total() == registry.held().len()
                &&& r.failure() is None
                &&& r.cursor().g == 0 && r.cursor().m == 0
                &&& r.cursor().step == Step::Help
                &&& r.cursor().cumulative == 0
            },
        forall|registry: &'a Registry<'b, M>, r: Renderer<16, L, 16, C>| #[trigger]
            call_ensures(
                Renderer::<16, 256, 16, C>::with_line_capacity::<L, M>,
                (registry,),
                r,
            ) ==> {
                &&& r.group_total() == registry.held().len()
                &&& r.failure() is None
                &&& r.cursor().g == 0 && r.cursor().m == 0
                &&& r.cursor().step == Step::Help
                &&& r.cursor().cumulative == 0
            },
        forall|registry: &'a Registry<'b, M>, r: Renderer<16, L, H, C>| #[trigger]
            call_ensures(
                Renderer::<16, 256, 16, C>::with_capacities::<L, H, M>,
                (registry,),
                r,
            ) ==> {
                &&& r.group_total() == registry.held().len()
                &&& r.failure() is None
                &&& r.cursor().g == 0 && r.cursor().m == 0
                &&& r.cursor().step == Step::Help
                &&& r.cursor().cumulative == 0
            },
        forall|r: &'a Renderer<N, L, H, C>, n: usize| #[trigger]
            call_ensures(Renderer::<N, L, H, C>::group_count, (r,), n) ==> n == r.group_total(),
        forall|r: &'a Renderer<N, L, H, C>, done: bool| #[trigger]
            call_ensures(Renderer::<N, L, H, C>::is_done, (r,), done) ==> {
                &&& done ==> r.failure() is None && r.cursor().g >= r.group_total()
                &&& r.failure() is None && r.cursor().g >= r.group_total() ==> done
            },
{
}

/// Of metrics that stay as they are, call after call of `next_line` gives the
/// lines of the exposition one by one, then the failure of the first line that
/// cannot be shown, or `None` behind the last.
pub proof fn law_next_line_gives_line_after_line<
    'a,
    'b,
    'c,
    const N: usize,
    const L: usize,
    const H: usize,
    const C: bool,
    const M: usize,
>(k: nat)
    ensures
        forall|
            s: &'a mut Renderer<N, L, H, C>,
            registry: &'b Registry<'c, M>,
            r: Result<Option<&'a str>, RenderError>,
        | #[trigger]
            call_ensures(Renderer::<N, L, H, C>::next_line::<M>, (s, registry), r) && s.failure()
                is None && s.group_total() == registry@.len() && transcript::groups_valid(
                registry@,
            ) && exposition::reached(
                |i: nat| registry@,
                exposition::start(H as nat),
                Limits { line: L as nat, buckets: H as nat, coherent: C },
                k,
            ) == Some(s.cursor()) && k <= transcript::printed(
                transcript::exposition_lines(
                    registry@,
                    Limits { line: L as nat, buckets: H as nat, coherent: C },
                ),
            ).len() ==> {
                let lines = transcript::exposition_lines(
                    registry@,
                    Limits { line: L as nat, buckets: H as nat, coherent: C },
                );
                &&& k == lines.len() ==> (r matches Ok(None)) && (*final(s)).failure() is None
                &&& k < lines.len() ==> match lines[k as int] {
                    Ok(shown) => {
                        &&& r matches Ok(Some(line))
                        &&& line@ == shown
                        &&& (*final(s)).failure() is None
                        &&& exposition::reached(
                            |i: nat| registry@,
                            exposition::start(H as nat),
                            Limits { line: L as nat, buckets: H as nat, coherent: C },
                            k + 1,
                        ) == Some((*final(s)).cursor())
                    },
                    Err(failure) => {
                        &&& r matches Err(e)
                        &&& e@ == failure
                        &&& (*final(s)).failure() == Some(failure)
                    },
                }
            },
{
    assert forall|
        s: &'a mut Renderer<N, L, H, C>,
        registry: &'b Registry<'c, M>,
        r: Result<Option<&'a str>, RenderError>,
    | #[trigger]
        call_ensures(Renderer::<N, L, H, C>::next_line::<M>, (s, registry), r) && s.failure()
            is None && s.group_total() == registry@.len() && transcript::groups_valid(
            registry@,
        ) && exposition::reached(
            |i: nat| registry@,
            exposition::start(H as nat),
            Limits { line: L as nat, buckets: H as nat, coherent: C },
            k,
        ) == Some(s.cursor()) && k <= transcript::printed(
            transcript::exposition_lines(
                registry@,
                Limits { line: L as nat, buckets: H as nat, coherent: C },
            ),
        ).len() implies {
        let lines = transcript::exposition_lines(
            registry@,
            Limits { line: L as nat, buckets: H as nat, coherent: C },
        );
        &&& k == lines.len() ==> (r matches Ok(None)) && (*final(s)).failure() is None
        &&& k < lines.len() ==> match lines[k as int] {
            Ok(shown) => {
                &&& r matches Ok(Some(line))
                &&& line@ == shown
                &&& (*final(s)).failure() is None
                &&& exposition::reached(
                    |i: nat| registry@,
                    exposition::start(H as nat),
                    Limits { line: L as nat, buckets: H as nat, coherent: C },
                    k + 1,
                ) == Some((*final(s)).cursor())
            },
            Err(failure) => {
                &&& r matches Err(e)
                &&& e@ == failure
                &&& (*final(s)).failure() == Some(failure)
            },
        }
    } by {
        let limits = Limits { line: L as nat, buckets: H as nat, coherent: C };
        assert(s.seen(registry@) =~= registry@);
        transcript::law_next_line_gives_the_exposition(registry@, limits, k);
        assert(s.limits() == limits);
        let at = |i: nat| registry@;
        assert(at(k) == registry@);
        assert(exposition::reached(at, exposition::start(limits.buckets), limits, k + 1)
            == match exposition::advanced(registry@, s.cursor(), limits) {
            exposition::Outcome::Line(shown, next) => Some(next),
            _ => None,
        });
    }
}

/// A failure is terminal: whatever becomes of the metrics, each later call
/// gives it again, and nothing more is handed to a sink.
pub proof fn law_failures_are_terminal<
    'a,
    'b,
    'c,
    const N: usize,
    const L: usize,
    const H: usize,
    const C: bool,
    const M: usize,
>()
    ensures
        forall|
            s: &'a mut Renderer<N, L, H, C>,
            registry: &'b Registry<'c, M>,
            r: Result<Option<&'a str>, RenderError>,
        | #[trigger]
            call_ensures(Renderer::<N, L, H, C>::next_line::<M>, (s, registry), r) ==> {
                &&& r matches Err(e) ==> (*final(s)).failure() == Some(e@)
                &&& r is Ok ==> s.failure() is None && (*final(s)).failure() is None
                &&& s.failure() matches Some(failure) ==> r is Err && r->Err_0@ == failure
                    && (*final(s)).failure() == Some(failure)
                &&& (*final(s)).group_total() == s.group_total()
            },
        forall|
            s: &'a mut Renderer<N, L, H, C>,
            registry: &'b Registry<'c, M>,
            w: &'a mut String,
            r: Result<(), RenderError>,
        | #[trigger]
            call_ensures(
                Renderer::<N, L, H, C>::render_to::<M, String>,
                (s, registry, w),
                r,
            ) ==> {
                &&& r matches Err(e) ==> (*final(s)).failure() == Some(e@)
                &&& r is Ok ==> s.failure() is None && (*final(s)).failure() is None
                &&& s.failure() matches Some(failure) ==> r is Err && r->Err_0@ == failure
                    && (*final(s)).failure() == Some(failure) && (*final(w))@ == (*w)@
                &&& (*final(s)).group_total() == s.group_total()
            },
{
}

/// A string into which all metrics are written is continued by the lines of the
/// exposition, one behind the other, up to the first that cannot be shown; the
/// write succeeds exactly if there is none, and fails as that line does.
pub proof fn law_strings_are_continued_by_the_exposition<
    'a,
    'b,
    'c,
    const C: bool,
    const M: usize,
>()
    ensures
        forall|registry: &'b Registry<'c, M>, w: &'a mut String, r: Result<(), RenderError>|
         #[trigger]
            call_ensures(render::write_all::<M, C, String>, (registry, w), r)
                && transcript::groups_valid(registry@) ==> {
                let lines = transcript::exposition_lines(
                    registry@,
                    Limits { line: 256, buckets: 16, coherent: C },
                );
                let shown = transcript::printed(lines);
                &&& (*final(w))@ == (*w)@ + shown.flatten()
                &&& r is Ok <==> shown.len() == lines.len()
                &&& r matches Err(e) ==> lines[shown.len() as int] == Err::<Seq<char>, _>(e@)
            },
{
    assert forall|registry: &'b Registry<'c, M>, w: &'a mut String, r: Result<(), RenderError>|
     #[trigger]
        call_ensures(render::write_all::<M, C, String>, (registry, w), r)
            && transcript::groups_valid(registry@) implies {
        let lines = transcript::exposition_lines(
            registry@,
            Limits { line: 256, buckets: 16, coherent: C },
        );
        let shown = transcript::printed(lines);
        &&& (*final(w))@ == (*w)@ + shown.flatten()
        &&& r is Ok <==> shown.len() == lines.len()
        &&& r matches Err(e) ==> lines[shown.len() as int] == Err::<Seq<char>, _>(e@)
    } by {
        let limits = Limits { line: 256, buckets: 16, coherent: C };
        let all = render::default_render(registry@, C);
        transcript::law_rendering_gives_the_exposition(registry@, limits);
        text::law_pieces_are_joined_in_order(all.lines);
        if r matches Err(e) && e@ == Failure::Sink {
            sink::law_strings_take_everything(*w, *final(w), all.lines, Err(FormatError));
        } else {
            sink::law_strings_take_everything(*w, *final(w), all.lines, Ok(()));
        }
    }
}

/// The same of a renderer that has just begun, within its own capacities.
pub proof fn law_fresh_renderers_drain_the_exposition<
    'a,
    'b,
    'c,
    const N: usize,
    const L: usize,
    const H: usize,
    const C: bool,
    const M: usize,
>()
    ensures
        forall|
            s: &'a mut Renderer<N, L, H, C>,
            registry: &'b Registry<'c, M>,
            w: &'a mut String,
            r: Result<(), RenderError>,
        | #[trigger]
            call_ensures(Renderer::<N, L, H, C>::render_to::<M, String>, (s, registry, w), r)
                && call_ensures(Renderer::<N, L, H, C>::from_registry::<M>, (registry,), *s)
                && transcript::groups_valid(registry@) ==> {
                let lines = transcript::exposition_lines(
                    registry@,
                    Limits { line: L as nat, buckets: H as nat, coherent: C },
                );
                let shown = transcript::printed(lines);
                &&& (*final(w))@ == (*w)@ + shown.flatten()
                &&& r is Ok <==> shown.len() == lines.len()
                &&& r matches Err(e) ==> lines[shown.len() as int] == Err::<Seq<char>, _>(e@)
            },
{
    assert forall|
        s: &'a mut Renderer<N, L, H, C>,
        registry: &'b Registry<'c, M>,
        w: &'a mut String,
        r: Result<(), RenderError>,
    | #[trigger]
        call_ensures(Renderer::<N, L, H, C>::render_to::<M, String>, (s, registry, w), r)
            && call_ensures(Renderer::<N, L, H, C>::from_registry::<M>, (registry,), *s)
            && transcript::groups_valid(registry@) implies {
        let lines = transcript::exposition_lines(
            registry@,
            Limits { line: L as nat, buckets: H as nat, coherent: C },
        );
        let shown = transcript::printed(lines);
        &&& (*final(w))@ == (*w)@ + shown.flatten()
        &&& r is Ok <==> shown.len() == lines.len()
        &&& r matches Err(e) ==> lines[shown.len() as int] == Err::<Seq<char>, _>(e@)
    } by {
        let limits = Limits { line: L as nat, buckets: H as nat, coherent: C };
        assert(s.seen(registry@) =~= registry@);
        assert(s.limits() == limits);
        let all = exposition::drained(registry@, exposition::start(H as nat), limits);
        transcript::law_rendering_gives_the_exposition(registry@, limits);
        text::law_pieces_are_joined_in_order(all.lines);
        if (*final(s)).failure() == Some(Failure::Sink) {
            if sink::wrote(*w, *final(w), all.lines, Err(FormatError)) {
                sink::law_strings_take_everything(*w, *final(w), all.lines, Err(FormatError));
            } else {
                sink::law_strings_take_everything(*w, *final(w), all.lines, Ok(()));
            }
        } else {
            sink::law_strings_take_everything(*w, *final(w), all.lines, Ok(()));
        }
    }
}

/// The length given of a rendering is that of what a string is continued by,
/// in bytes, and it is given exactly if the rendering succeeds and its length
/// fits a `usize`.
pub proof fn law_lengths_are_those_of_the_written_text<
    'a,
    'b,
    'c,
    const C: bool,
    const M: usize,
>()
    ensures
        forall|
            registry: &'b Registry<'c, M>,
            w: &'a mut String,
            r: Result<(), RenderError>,
            n: Result<usize, RenderError>,
        |
            #![trigger call_ensures(render::write_all::<M, C, String>, (registry, w), r),
                call_ensures(render::rendered_len::<M, C>, (registry,), n)]
            call_ensures(render::write_all::<M, C, String>, (registry, w), r) && call_ensures(
                render::rendered_len::<M, C>,
                (registry,),
                n,
            ) ==> {
                &&& n matches Ok(length) ==> r is Ok && text::byte_len((*final(w))@)
                    - text::byte_len((*w)@) == length
                &&& r is Ok && text::byte_len((*final(w))@) - text::byte_len((*w)@)
                    <= usize::MAX ==> n is Ok
                &&& r is Err ==> n is Err && (n->Err_0@ == r->Err_0@ || n->Err_0@ == Failure::Sink)
            },
{
    assert forall|
        registry: &'b Registry<'c, M>,
        w: &'a mut String,
        r: Result<(), RenderError>,
        n: Result<usize, RenderError>,
    |
        #![trigger call_ensures(render::write_all::<M, C, String>, (registry, w), r),
            call_ensures(render::rendered_len::<M, C>, (registry,), n)]
        call_ensures(render::write_all::<M, C, String>, (registry, w), r) && call_ensures(
            render::rendered_len::<M, C>,
            (registry,),
            n,
        ) implies {
        &&& n matches Ok(length) ==> r is Ok && text::byte_len((*final(w))@) - text::byte_len(
            (*w)@,
        ) == length
        &&& r is Ok && text::byte_len((*final(w))@) - text::byte_len((*w)@) <= usize::MAX
            ==> n is Ok
        &&& r is Err ==> n is Err && (n->Err_0@ == r->Err_0@ || n->Err_0@ == Failure::Sink)
    } by {
        let all = render::default_render(registry@, C);
        text::lemma_byte_len_concat((*w)@, all.text());
        if r matches Err(e) && e@ == Failure::Sink {
            sink::law_strings_take_everything(*w, *final(w), all.lines, Err(FormatError));
        } else {
            sink::law_strings_take_everything(*w, *final(w), all.lines, Ok(()));
        }
    }
}

/// A renderer is ready for the registry that it was made from, and after each
/// line for the registry that the line was rendered of.
pub proof fn law_renderers_stay_ready<
    'a,
    'b,
    'c,
    const N: usize,
    const L: usize,
    const H: usize,
    const C: bool,
    const M: usize,
>()
    ensures
        forall|registry: &'b Registry<'c, M>, s: Renderer<N, L, H, C>, b: bool|
            #![trigger call_ensures(Renderer::<N, L, H, C>::from_registry::<M>, (registry,), s),
                call_ensures(Renderer::<N, L, H, C>::is_ready_for::<M>, (&s, registry), b)]
            call_ensures(Renderer::<N, L, H, C>::from_registry::<M>, (registry,), s)
                && call_ensures(Renderer::<N, L, H, C>::is_ready_for::<M>, (&s, registry), b)
                ==> b,
        forall|
            s: &'a mut Renderer<N, L, H, C>,
            registry: &'b Registry<'c, M>,
            r: Result<Option<&'a str>, RenderError>,
            b: bool,
        |
            #![trigger call_ensures(Renderer::<N, L, H, C>::next_line::<M>, (s, registry), r),
                call_ensures(Renderer::<N, L, H, C>::is_ready_for::<M>, (&*final(s), registry), b)]
            call_ensures(Renderer::<N, L, H, C>::next_line::<M>, (s, registry), r)
                && call_ensures(
                Renderer::<N, L, H, C>::is_ready_for::<M>,
                (&*final(s), registry),
                b,
            ) ==> b,
{
}

/// The length that is left of a renderer that has just begun is that of the
/// lines of the exposition, in bytes.
pub proof fn law_lengths_left_are_those_of_the_lines<
    'b,
    'c,
    const N: usize,
    const L: usize,
    const H: usize,
    const C: bool,
    const M: usize,
>()
    ensures
        forall|
            s: Renderer<N, L, H, C>,
            registry: &'b Registry<'c, M>,
            n: Result<usize, RenderError>,
        | #[trigger]
            call_ensures(render::rendered_len_from::<N, L, H, C, M>, (s, registry), n)
                && call_ensures(Renderer::<N, L, H, C>::from_registry::<M>, (registry,), s)
                && transcript::groups_valid(registry@) ==> {
                let lines = transcript::exposition_lines(
                    registry@,
                    Limits { line: L as nat, buckets: H as nat, coherent: C },
                );
                let shown = transcript::printed(lines);
                let length = text::byte_len(shown.flatten());
                &&& n is Ok <==> shown.len() == lines.len() && length <= usize::MAX
                &&& n matches Ok(k) ==> k == length
                &&& n matches Err(e) ==> if length > usize::MAX {
                    e@ == Failure::Sink
                } else {
                    lines[shown.len() as int] == Err::<Seq<char>, _>(e@)
                }
            },
{
    assert forall|
        s: Renderer<N, L, H, C>,
        registry: &'b Registry<'c, M>,
        n: Result<usize, RenderError>,
    | #[trigger]
        call_ensures(render::rendered_len_from::<N, L, H, C, M>, (s, registry), n)
            && call_ensures(Renderer::<N, L, H, C>::from_registry::<M>, (registry,), s)
            && transcript::groups_valid(registry@) implies {
        let lines = transcript::exposition_lines(
            registry@,
            Limits { line: L as nat, buckets: H as nat, coherent: C },
        );
        let shown = transcript::printed(lines);
        let length = text::byte_len(shown.flatten());
        &&& n is Ok <==> shown.len() == lines.len() && length <= usize::MAX
        &&& n matches Ok(k) ==> k == length
        &&& n matches Err(e) ==> if length > usize::MAX {
            e@ == Failure::Sink
        } else {
            lines[shown.len() as int] == Err::<Seq<char>, _>(e@)
        }
    } by {
        let limits = Limits { line: L as nat, buckets: H as nat, coherent: C };
        assert(s.seen(registry@) =~= registry@);
        assert(s.limits() == limits);
        transcript::law_rendering_gives_the_exposition(registry@, limits);
        text::law_pieces_are_joined_in_order(
            exposition::drained(registry@, exposition::start(H as nat), limits).lines,
        );
    }
}

/// A registry of at most the default number of groups can always be rendered
/// into a string and its length be asked for, and a renderer can be made of it;
/// one that is ready can give its next line.
pub proof fn law_registries_can_always_be_rendered<
    'a,
    'b,
    'c,
    const N: usize,
    const L: usize,
    const H: usize,
    const C: bool,
    const M: usize,
>()
    ensures
        M <= 16 ==> forall|registry: &'b Registry<'c, M>, w: &'a mut String| #[trigger]
            call_requires(render::write_all::<M, C, String>, (registry, w)),
        M <= 16 ==> forall|registry: &'b Registry<'c, M>| #[trigger]
            call_requires(render::rendered_len::<M, C>, (registry,)),
        M <= N ==> forall|registry: &'b Registry<'c, M>| #[trigger]
            call_requires(Renderer::<N, L, H, C>::from_registry::<M>, (registry,)),
        forall|registry: &'a mut Registry<'c, M>, group: GroupRef<'c>| #[trigger]
            call_requires(Registry::<'c, M>::register, (registry, group)),
        forall|s: &'a mut Renderer<N, L, H, C>, registry: &'b Registry<'c, M>, b: bool|
            #![trigger call_ensures(Renderer::<N, L, H, C>::is_ready_for::<M>, (&*s, registry), b),
                call_requires(Renderer::<N, L, H, C>::next_line::<M>, (s, registry))]
            call_ensures(Renderer::<N, L, H, C>::is_ready_for::<M>, (&*s, registry), b) && b
                ==> call_requires(Renderer::<N, L, H, C>::next_line::<M>, (s, registry)),
{
}

} // verus!
