//! How one request travels: what is sent at each hop, and what each answer leads to.
use crate::api::{ApiErr, ErrView};
use crate::cookies::{header_of, with_cookies, CookieStore, CookieView};
use crate::models::opt_view;
use crate::text::{
    begins_with, concat2, contains_text, copy_of, has_prefix, occurs_at, texts,
};
use vstd::prelude::*;

verus! {

/// Where the service lives.
pub const HOST: &'static str = "https://www.duifene.com";

/// How requests name their sender, as a desktop browser.
pub const DESKTOP_UA: &'static str =
    "Mozilla/5.0 (Windows NT 10.0; Win64; x64) AppleWebKit/537.36 (KHTML, like Gecko) Chrome/148.0.0.0 Safari/537.36 Edg/148.0.0.0";

/// How requests name their sender, as a telephone.
pub const MOBILE_UA: &'static str =
    "Mozilla/5.0 (iPhone; CPU iPhone OS 16_6 like Mac OS X) AppleWebKit/605.1.15 (KHTML, like Gecko) Mobile/15E148 MicroMessenger/8.0.40(0x1800282a) NetType/WIFI Language/zh_CN";

/// The kind of content that a form is.
pub const FORM_CONTENT_TYPE: &'static str = "application/x-www-form-urlencoded; charset=UTF-8";

/// How many redirections are followed.
pub const MAX_REDIRECTS: u32 = 12;

/// How long to wait before a request is made again that came too soon.
pub const PAUSE_MILLIS: u64 = 500;

/// A header: its name and its value.
pub type HeaderView = (Seq<char>, Seq<char>);

/// What a list of headers holds.
pub open spec fn headers_of(list: Seq<(String, String)>) -> Seq<HeaderView> {
    list.map_values(|header: (String, String)| (header.0@, header.1@))
}

/// A request as it is asked for: the path at the service, the form to post where there is one,
/// the page that it claims to come from, further headers, and whether a telephone asks.
pub struct RequestPlan {
    pub path: String,
    pub data: Option<String>,
    pub referer: Option<String>,
    pub extra_headers: Vec<(String, String)>,
    pub mobile_ua: bool,
}

/// What a request as it is asked for holds.
#[verifier::ext_equal]
pub ghost struct PlanView {
    pub path: Seq<char>,
    pub data: Option<Seq<char>>,
    pub referer: Option<Seq<char>>,
    pub extra_headers: Seq<HeaderView>,
    pub mobile_ua: bool,
}

impl View for RequestPlan {
    type V = PlanView;

    open spec fn view(&self) -> PlanView {
        PlanView {
            path: self.path@,
            data: opt_view(self.data),
            referer: opt_view(self.referer),
            extra_headers: headers_of(self.extra_headers@),
            mobile_ua: self.mobile_ua,
        }
    }
}

/// A request as it is sent.
pub struct Outgoing {
    pub post: bool,
    pub url: String,
    pub headers: Vec<(String, String)>,
    pub body: Option<String>,
}

/// What a request as it is sent holds.
#[verifier::ext_equal]
pub ghost struct OutgoingView {
    pub post: bool,
    pub url: Seq<char>,
    pub headers: Seq<HeaderView>,
    pub body: Option<Seq<char>>,
}

impl View for Outgoing {
    type V = OutgoingView;

    open spec fn view(&self) -> OutgoingView {
        OutgoingView {
            post: self.post,
            url: self.url@,
            headers: headers_of(self.headers@),
            body: opt_view(self.body),
        }
    }
}

/// The head of an answer: its status, where it sends the asker, and the cookies that it sets.
pub struct ReplyHead {
    pub status: u16,
    pub location: Option<String>,
    pub set_cookies: Vec<String>,
}

/// What an answer leads to: the same request once more after a pause, a request to another
/// address, a failure, or the delivery of the answer.
pub enum Step {
    Pause,
    Follow,
    Fail(ApiErr),
    Deliver,
}

/// What a step is.
#[verifier::ext_equal]
pub ghost enum StepView {
    Pause,
    Follow,
    Fail(ErrView),
    Deliver,
}

impl View for Step {
    type V = StepView;

    open spec fn view(&self) -> StepView {
        match *self {
            Step::Pause => StepView::Pause,
            Step::Follow => StepView::Follow,
            Step::Fail(error) => StepView::Fail(error@),
            Step::Deliver => StepView::Deliver,
        }
    }
}

/// A request under way: what was asked for, where it goes next, how many redirections it has
/// followed, and whether it has paused.
pub struct Journey {
    plan: RequestPlan,
    target_url: String,
    redirects: u32,
    retried: bool,
}

/// What a request under way holds.
#[verifier::ext_equal]
pub ghost struct JourneyView {
    pub plan: PlanView,
    pub target_url: Seq<char>,
    pub redirects: int,
    pub retried: bool,
}

impl View for Journey {
    type V = JourneyView;

    closed spec fn view(&self) -> JourneyView {
        JourneyView {
            plan: self.plan@,
            target_url: self.target_url@,
            redirects: self.redirects as int,
            retried: self.retried,
        }
    }
}

/// The first hop of a request.
pub open spec fn first_hop(plan: PlanView) -> JourneyView {
    JourneyView { plan, target_url: HOST@ + plan.path, redirects: 0, retried: false }
}

/// The form goes with the first hop alone.
pub open spec fn posts(journey: JourneyView) -> bool {
    journey.redirects == 0 && journey.plan.data is Some
}

/// The headers that a request carries: the cookies, the name of a telephone, the page that it
/// claims to come from, the further headers, and the kind of a form, in this order and each
/// where there is one.
pub open spec fn sent_headers(journey: JourneyView, cookies: Seq<CookieView>) -> Seq<HeaderView> {
    let with_cookies = if cookies.len() > 0 {
        seq![("cookie"@, header_of(cookies))]
    } else {
        Seq::empty()
    };
    let with_sender = if journey.plan.mobile_ua {
        with_cookies.push(("user-agent"@, MOBILE_UA@))
    } else {
        with_cookies
    };
    let with_referer = match journey.plan.referer {
        Some(referer) => with_sender.push(("Referer"@, referer)),
        None => with_sender,
    };
    let with_extra = with_referer + journey.plan.extra_headers;
    if posts(journey) {
        with_extra.push(("content-type"@, FORM_CONTENT_TYPE@))
    } else {
        with_extra
    }
}

/// The request that is sent next.
pub open spec fn sent(journey: JourneyView, cookies: Seq<CookieView>) -> OutgoingView {
    OutgoingView {
        post: posts(journey),
        url: journey.target_url,
        headers: sent_headers(journey, cookies),
        body: if posts(journey) {
            journey.plan.data
        } else {
            None
        },
    }
}

/// The address that a redirection names: a whole address, one without its scheme, or a path at
/// the service.
pub open spec fn redirected_to(location: Seq<char>) -> Seq<char> {
    if begins_with(location, "http://"@) || begins_with(location, "https://"@) {
        location
    } else if begins_with(location, "//"@) {
        "https:"@ + location
    } else {
        HOST@ + location
    }
}

/// What an answer does: a complaint that the request came too soon has it made again, once; a
/// redirection is followed, but no more than twelve times; otherwise the status decides.
pub open spec fn after_reply(
    journey: JourneyView,
    status: u16,
    location: Option<Seq<char>>,
) -> (JourneyView, StepView) {
    if status == 429 && !journey.retried {
        (JourneyView { retried: true, ..journey }, StepView::Pause)
    } else if location is Some {
        let next = JourneyView { redirects: journey.redirects + 1, ..journey };
        if journey.redirects >= MAX_REDIRECTS {
            (next, StepView::Fail(ErrView::Msg("重定向次数过多"@)))
        } else {
            (JourneyView { target_url: redirected_to(location->0), ..next }, StepView::Follow)
        }
    } else if 200 <= status <= 299 {
        (journey, StepView::Deliver)
    } else {
        (journey, StepView::Fail(ErrView::Http(status)))
    }
}

/// How many more requests a request under way can take, after the one that is sent next.
pub open spec fn hops_left(journey: JourneyView) -> int {
    MAX_REDIRECTS - journey.redirects + if journey.retried {
        0int
    } else {
        1int
    }
}

/// The address that a redirection names.
pub fn redirect_target(location: &str) -> (r: String)
    ensures
        r@ == redirected_to(location@),
{
    if has_prefix(location, "http://") || has_prefix(location, "https://") {
        copy_of(location)
    } else if has_prefix(location, "//") {
        concat2("https:", location)
    } else {
        concat2(HOST, location)
    }
}

fn add_header(headers: &mut Vec<(String, String)>, name: &str, value: &str)
    ensures
        headers_of(final(headers)@) == headers_of(old(headers)@).push((name@, value@)),
{
    headers.push((copy_of(name), copy_of(value)));
    assert(headers_of(headers@) =~= headers_of(old(headers)@).push((name@, value@)));
}

impl Journey {
    /// A request may still be under way: it has followed no more redirections than are followed.
    pub open spec fn wf(&self) -> bool {
        0 <= self@.redirects <= MAX_REDIRECTS
    }

    /// A request that is about to be made.
    pub fn new(plan: RequestPlan) -> (r: Journey)
        ensures
            r.wf(),
            r@ == first_hop(plan@),
    {
        let target_url: String = concat2(HOST, plan.path.as_str());
        Journey { plan, target_url, redirects: 0, retried: false }
    }

    /// The request that is sent next.
    pub fn outgoing(&self, cookies: &CookieStore) -> (r: Outgoing)
        ensures
            r@ == sent(self@, cookies@),
    {
        let mut headers: Vec<(String, String)> = Vec::new();
        assert(headers_of(headers@) =~= Seq::empty());
        if let Some(cookie_value) = cookies.header_value() {
            add_header(&mut headers, "cookie", cookie_value.as_str());
            assert(headers_of(headers@) =~= seq![("cookie"@, header_of(cookies@))]);
        }
        if self.plan.mobile_ua {
            add_header(&mut headers, "user-agent", MOBILE_UA);
        }
        if let Some(referer) = &self.plan.referer {
            add_header(&mut headers, "Referer", referer.as_str());
        }
        let ghost so_far = headers_of(headers@);
        let ghost extra = headers_of(self.plan.extra_headers@);
        let mut i: usize = 0;
        assert(so_far + extra.take(0) =~= so_far);
        while i < self.plan.extra_headers.len()
            invariant
                i <= self.plan.extra_headers@.len(),
                extra == headers_of(self.plan.extra_headers@),
                headers_of(headers@) == so_far + extra.take(i as int),
            decreases self.plan.extra_headers@.len() - i,
        {
            add_header(
                &mut headers,
                self.plan.extra_headers[i].0.as_str(),
                self.plan.extra_headers[i].1.as_str(),
            );
            assert(extra.take(i + 1) =~= extra.take(i as int).push(extra[i as int]));
            assert(so_far + extra.take(i + 1) =~= (so_far + extra.take(i as int)).push(
                extra[i as int],
            ));
            i = i + 1;
        }
        assert(extra.take(extra.len() as int) =~= extra);
        let mut post: bool = false;
        let mut body: Option<String> = None;
        if self.redirects == 0 {
            if let Some(data) = &self.plan.data {
                add_header(&mut headers, "content-type", FORM_CONTENT_TYPE);
                post = true;
                body = Some(copy_of(data.as_str()));
            }
        }
        Outgoing { post, url: copy_of(self.target_url.as_str()), headers, body }
    }

    /// Takes in the head of an answer: its cookies go into the session, and its status and its
    /// redirection say what comes next. After a pause or a redirection the request can go on.
    pub fn on_reply(&mut self, cookies: &mut CookieStore, reply: &ReplyHead) -> (r: Step)
        requires
            old(self).wf(),
            old(cookies).wf(),
        ensures
            (final(self)@, r@) == after_reply(old(self)@, reply.status, opt_view(reply.location)),
            final(cookies).wf(),
            final(cookies)@ == with_cookies(
                old(cookies)@,
                texts(reply.set_cookies@),
                reply.set_cookies@.len() as int,
            ),
            r is Pause || r is Follow || r is Deliver ==> final(self).wf(),
    {
        cookies.apply_response(&reply.set_cookies);
        if reply.status == 429 && !self.retried {
            self.retried = true;
            return Step::Pause;
        }
        if let Some(location) = &reply.location {
            self.redirects = self.redirects + 1;
            if self.redirects > MAX_REDIRECTS {
                return Step::Fail(ApiErr::Msg(copy_of("重定向次数过多")));
            }
            self.target_url = redirect_target(location.as_str());
            return Step::Follow;
        }
        if reply.status < 200 || reply.status > 299 {
            return Step::Fail(ApiErr::Http(reply.status));
        }
        Step::Deliver
    }
}

/// Every answer that leads to another request uses up one of those that are left, so that a
/// request comes to an end after at most fourteen have been sent.
pub proof fn journey_ends(journey: JourneyView, status: u16, location: Option<Seq<char>>)
    requires
        0 <= journey.redirects <= MAX_REDIRECTS,
    ensures
        ({
            let (next, step) = after_reply(journey, status, location);
            step is Pause || step is Follow ==> 0 <= hops_left(next) == hops_left(journey) - 1
        }),
        hops_left(first_hop(journey.plan)) == 13,
{
}

/// A form is posted only to the address that was asked for: once a redirection is followed,
/// nothing more is posted.
pub proof fn form_is_not_forwarded(
    journey: JourneyView,
    status: u16,
    location: Option<Seq<char>>,
    cookies: Seq<CookieView>,
)
    requires
        0 <= journey.redirects,
    ensures
        ({
            let (next, step) = after_reply(journey, status, location);
            step is Follow ==> !sent(next, cookies).post && sent(next, cookies).body is None
        }),
{
}

/// A pause changes nothing of what is sent: the same request goes to the same address.
pub proof fn pause_keeps_request(
    journey: JourneyView,
    status: u16,
    location: Option<Seq<char>>,
    cookies: Seq<CookieView>,
)
    requires
        after_reply(journey, status, location).1 is Pause,
    ensures
        sent(after_reply(journey, status, location).0, cookies) == sent(journey, cookies),
{
}

/// A form is posted and a page is asked for, at the service's address and the request's path.
pub proof fn first_hop_goes_to_service(plan: PlanView, cookies: Seq<CookieView>)
    ensures
        sent(first_hop(plan), cookies).url == "https://www.duifene.com"@ + plan.path,
        sent(first_hop(plan), cookies).post == (plan.data is Some),
        sent(first_hop(plan), cookies).body == plan.data,
{
}

/// A header of what is sent: it comes from the cookies, from the sender, from the page that the
/// request claims to come from, from the request itself, or tells that a form is posted; and each
/// of these is sent where the request has it.
pub proof fn headers_are_of_request(
    journey: JourneyView,
    cookies: Seq<CookieView>,
    header: HeaderView,
)
    ensures
        sent(journey, cookies).headers.contains(header) == {
            ||| cookies.len() > 0 && header == ("cookie"@, header_of(cookies))
            ||| journey.plan.mobile_ua && header == ("user-agent"@, MOBILE_UA@)
            ||| journey.plan.referer is Some && header == ("Referer"@, journey.plan.referer->0)
            ||| journey.plan.extra_headers.contains(header)
            ||| journey.redirects == 0 && journey.plan.data is Some && header == (
                "content-type"@,
                "application/x-www-form-urlencoded; charset=UTF-8"@,
            )
        },
{
    let first = if cookies.len() > 0 {
        seq![("cookie"@, header_of(cookies))]
    } else {
        Seq::empty()
    };
    let second = if journey.plan.mobile_ua {
        first.push(("user-agent"@, MOBILE_UA@))
    } else {
        first
    };
    let third = match journey.plan.referer {
        Some(referer) => second.push(("Referer"@, referer)),
        None => second,
    };
    let fourth = third + journey.plan.extra_headers;
    let sender = ("user-agent"@, MOBILE_UA@);
    let form = ("content-type"@, FORM_CONTENT_TYPE@);
    assert(first.contains(header) == (cookies.len() > 0 && header == (
        "cookie"@,
        header_of(cookies),
    ))) by {
        if cookies.len() > 0 {
            assert(first[0] == ("cookie"@, header_of(cookies)));
        }
    }
    pushed_is_contained(first, sender, header);
    if let Some(referer) = journey.plan.referer {
        pushed_is_contained(second, ("Referer"@, referer), header);
    }
    assert(fourth.contains(header) == (third.contains(header)
        || journey.plan.extra_headers.contains(header))) by {
        if third.contains(header) {
            let i = choose|i: int| 0 <= i < third.len() && third[i] == header;
            assert(fourth[i] == header);
        }
        if journey.plan.extra_headers.contains(header) {
            let extra = journey.plan.extra_headers;
            let i = choose|i: int| 0 <= i < extra.len() && extra[i] == header;
            assert(fourth[third.len() + i] == header);
        }
    }
    pushed_is_contained(fourth, form, header);
}

proof fn pushed_is_contained(list: Seq<HeaderView>, last: HeaderView, header: HeaderView)
    ensures
        list.push(last).contains(header) == (list.contains(header) || header == last),
{
    let longer = list.push(last);
    if list.contains(header) {
        let i = choose|i: int| 0 <= i < list.len() && list[i] == header;
        assert(longer[i] == header);
    }
    if header == last {
        assert(longer[list.len() as int] == header);
    }
}

/// A redirection that names a scheme is followed as it stands, one that names a host over the
/// secure scheme, and any other on the service itself.
pub proof fn redirection_names_where(location: Seq<char>)
    ensures
        redirected_to("https://"@ + location) == "https://"@ + location,
        redirected_to("http://"@ + location) == "http://"@ + location,
        redirected_to("//"@ + location) == "https://"@ + location,
        location.len() == 0 || (location[0] != '/' && location[0] != 'h') ==> redirected_to(
            location,
        ) == "https://www.duifene.com"@ + location,
        location.len() == 0 || location[0] != '/' ==> redirected_to("/"@ + location)
            == "https://www.duifene.com/"@ + location,
{
    reveal_strlit("https://");
    reveal_strlit("http://");
    reveal_strlit("//");
    reveal_strlit("/");
    reveal_strlit("https:");
    reveal_strlit("https://www.duifene.com");
    reveal_strlit("https://www.duifene.com/");
    let secure = "https://"@ + location;
    let plain = "http://"@ + location;
    let bare = "//"@ + location;
    let rooted = "/"@ + location;
    assert(secure.subrange(0, 8) =~= "https://"@);
    assert(secure.take(8) =~= "https://"@);
    assert(plain.subrange(0, 7) =~= "http://"@);
    assert(plain.take(7) =~= "http://"@);
    assert(bare.take(2) =~= "//"@);
    assert(bare.subrange(0, 2) =~= "//"@);
    assert(bare[0] == '/');
    assert(rooted[0] == '/');
    assert(!begins_with(bare, "http://"@) && !begins_with(bare, "https://"@)) by {
        if begins_with(bare, "http://"@) {
            assert(bare.subrange(0, 7)[0] == 'h');
        }
        if begins_with(bare, "https://"@) {
            assert(bare.subrange(0, 8)[0] == 'h');
        }
    }
    assert("https:"@ + bare =~= secure);
    assert(!begins_with(rooted, "http://"@) && !begins_with(rooted, "https://"@)) by {
        if begins_with(rooted, "http://"@) {
            assert(rooted.subrange(0, 7)[0] == 'h');
        }
        if begins_with(rooted, "https://"@) {
            assert(rooted.subrange(0, 8)[0] == 'h');
        }
    }
    if location.len() == 0 || location[0] != '/' {
        if begins_with(rooted, "//"@) {
            assert(rooted.subrange(0, 2)[1] == '/');
            assert(rooted[1] == location[0]);
        }
        assert("https://www.duifene.com"@ + rooted =~= "https://www.duifene.com/"@ + location);
    }
    if location.len() == 0 || (location[0] != '/' && location[0] != 'h') {
        if begins_with(location, "http://"@) {
            assert(location.subrange(0, 7)[0] == 'h');
        }
        if begins_with(location, "https://"@) {
            assert(location.subrange(0, 8)[0] == 'h');
        }
        if begins_with(location, "//"@) {
            assert(location.subrange(0, 2)[0] == '/');
        }
    }
}

/// A request that came too soon is made again once; after that the answer counts. A redirection
/// is followed unless twelve were, an answer in the two hundreds is delivered, and any other is
/// an error that tells its number.
pub proof fn answer_is_told_apart(journey: JourneyView, status: u16, location: Option<Seq<char>>)
    ensures
        (after_reply(journey, status, location).1 is Pause) == (status == 429 && !journey.retried),
        after_reply(journey, status, location).1 is Pause ==> after_reply(
            journey,
            status,
            location,
        ).0.retried,
        journey.retried || status != 429 ==> {
            &&& (after_reply(journey, status, location).1 is Follow) == (location is Some
                && journey.redirects < 12)
            &&& location is Some && journey.redirects >= 12 ==> after_reply(
                journey,
                status,
                location,
            ).1 == StepView::Fail(ErrView::Msg("重定向次数过多"@))
            &&& (after_reply(journey, status, location).1 is Deliver) == (location is None && 200
                <= status && status < 300)
            &&& location is None && (status < 200 || status >= 300) ==> after_reply(
                journey,
                status,
                location,
            ).1 == StepView::Fail(ErrView::Http(status))
        },
        after_reply(journey, status, location).1 is Follow ==> {
            let next = after_reply(journey, status, location).0;
            &&& next.target_url == redirected_to(location->0)
            &&& next.redirects == journey.redirects + 1
            &&& next.plan == journey.plan && next.retried == journey.retried
        },
        !(after_reply(journey, status, location).1 is Follow) ==> after_reply(
            journey,
            status,
            location,
        ).0.target_url == journey.target_url,
        after_reply(journey, status, location).0.plan == journey.plan,
{
}

/// A request that goes wrong nowhere delivers the answer to what was asked.
pub proof fn good_answer_is_delivered(plan: PlanView, status: u16)
    requires
        200 <= status < 300,
    ensures
        after_reply(first_hop(plan), status, None) == (first_hop(plan), StepView::Deliver),
        after_reply(after_reply(first_hop(plan), 429, None).0, status, None).1 is Deliver,
        after_reply(after_reply(first_hop(plan), 429, None).0, 429, None).1 == StepView::Fail(
            ErrView::Http(429),
        ),
{
}

/// As a desktop browser requests name Windows, and as a telephone the messenger that the service is
/// used from.
pub proof fn senders_are_told_apart()
    ensures
        contains_text(DESKTOP_UA@, "Windows NT 10.0; Win64; x64"@),
        contains_text(MOBILE_UA@, "iPhone; CPU iPhone OS 16_6 like Mac OS X"@),
        contains_text(MOBILE_UA@, "MicroMessenger/8.0.40(0x1800282a)"@),
{
    reveal_strlit(
        "Mozilla/5.0 (Windows NT 10.0; Win64; x64) AppleWebKit/537.36 (KHTML, like Gecko) Chrome/148.0.0.0 Safari/537.36 Edg/148.0.0.0",
    );
    reveal_strlit(
        "Mozilla/5.0 (iPhone; CPU iPhone OS 16_6 like Mac OS X) AppleWebKit/605.1.15 (KHTML, like Gecko) Mobile/15E148 MicroMessenger/8.0.40(0x1800282a) NetType/WIFI Language/zh_CN",
    );
    reveal_strlit("Windows NT 10.0; Win64; x64");
    reveal_strlit("iPhone; CPU iPhone OS 16_6 like Mac OS X");
    reveal_strlit("MicroMessenger/8.0.40(0x1800282a)");
    let desk = DESKTOP_UA@;
    let phone = MOBILE_UA@;
    assert(desk.subrange(13, 40) =~= "Windows NT 10.0; Win64; x64"@);
    assert(occurs_at(desk, "Windows NT 10.0; Win64; x64"@, 13));
    assert(phone.subrange(13, 53) =~= "iPhone; CPU iPhone OS 16_6 like Mac OS X"@);
    assert(occurs_at(phone, "iPhone; CPU iPhone OS 16_6 like Mac OS X"@, 13));
    assert(phone.subrange(110, 143) =~= "MicroMessenger/8.0.40(0x1800282a)"@);
    assert(occurs_at(phone, "MicroMessenger/8.0.40(0x1800282a)"@, 110));
}

} // verus!
