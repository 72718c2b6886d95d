//! The dashboard's HTML components: the page shell, the navigation rail, the
//! stage, bands, rows and the distribution readouts, each assembled from the
//! vault's data exactly as the spec functions here write it.
use vstd::prelude::*;
use crate::dates::{fmt_created, fmt_created_spec, short_date, short_date_spec};
use crate::entry::{is_done_entry, is_done_spec, Entry};
use crate::escape::{esc, esc_spec};
use crate::frontmatter::opt_view;
use crate::dates::parse_created_spec;
use crate::text::{append_str, decimal, fmt_usize, str_less, str_lt};

verus! {

/// The product's word mark.
pub const MARK: &'static str = "MindCache";

/// Script that applies the stored appearance and layout before the first
/// paint (and moves preferences stored under older keys).
pub const BOOT: &'static str = r#"(function(){try{
var d=document.documentElement;
var a=localStorage.getItem('mind-appearance');
if(!a){var l=localStorage.getItem('mind-theme');
 if(l){a=(l==='light')?'light':(l==='dark'||l==='endfield')?'dark':'auto';
  try{localStorage.setItem('mind-appearance',a);localStorage.removeItem('mind-theme')}catch(e){}}}
if(a&&a!=='auto')d.setAttribute('data-ark-appearance',a);
var v=localStorage.getItem('mind-layout');
if(!v){var ld=localStorage.getItem('mind-density');
 if(ld){v=(ld==='2')?'list':'grid';try{localStorage.setItem('mind-layout',v);localStorage.removeItem('mind-density')}catch(e){}}}
if(v==='grid')d.setAttribute('data-ark-layout','grid');
}catch(e){}})();"#;

/// The dashboard script: clock, appearance and layout switches, folded lists,
/// the first-visit mark and the search box.
pub const JS: &'static str = r#"(function(){
var d=document.documentElement;
var c=document.getElementById('clock');
if(c){var tick=function(){var n=new Date();c.textContent=('0'+n.getHours()).slice(-2)+':'+('0'+n.getMinutes()).slice(-2)};tick();setInterval(tick,60000)}

function aget(){try{return localStorage.getItem('mind-appearance')||'auto'}catch(e){return 'auto'}}
var ab=document.getElementById('appearancebtn');
function apaint(){if(ab)ab.textContent='外观 THEME · '+({auto:'AUTO',light:'LIGHT',dark:'DARK'})[aget()]}
if(ab){ab.addEventListener('click',function(){
  var order=['auto','light','dark'],nx=order[(order.indexOf(aget())+1)%order.length];
  try{localStorage.setItem('mind-appearance',nx)}catch(e){}
  if(nx==='auto')d.removeAttribute('data-ark-appearance');else d.setAttribute('data-ark-appearance',nx);
  apaint()});apaint()}

function lget(){try{return localStorage.getItem('mind-layout')||'list'}catch(e){return 'list'}}
var lb=document.getElementById('layoutbtn');
function lpaint(){if(lb)lb.textContent='视图 VIEW · '+(lget()==='grid'?'GRID':'LIST')}
if(lb){lb.addEventListener('click',function(){
  var nx=lget()==='grid'?'list':'grid';
  try{localStorage.setItem('mind-layout',nx)}catch(e){}
  d.setAttribute('data-ark-layout',nx);lpaint()});lpaint()}

var fw=document.querySelectorAll('.rows[data-fold]');
for(var i=0;i<fw.length;i++){(function(w){
  var n=parseInt(w.getAttribute('data-fold'),10)||8;
  var rows=w.querySelectorAll(':scope > .row');
  if(rows.length<=n)return;
  for(var j=n;j<rows.length;j++)rows[j].classList.add('hidden-row');
  var btn=w.parentElement?w.parentElement.querySelector('.foldbtn'):null;
  if(!btn)return;
  btn.addEventListener('click',function(){
    for(var j=0;j<rows.length;j++)rows[j].classList.remove('hidden-row');
    if(btn.parentElement)btn.parentElement.removeChild(btn);
  });
})(fw[i])}

// 一次性彩蛋：首次访问把舞台词标闪成 M1NDC4CH3（9 字符等宽，切换不产生位移），
// 约 0.8s 后回到 MindCache；reduced-motion 或已访问过则完全跳过。
try{
  var mk=document.querySelector('.stage-kicker .mark');
  var seen=null;try{seen=localStorage.getItem('mind-seen')}catch(e){}
  var rm=false;try{rm=window.matchMedia('(prefers-reduced-motion: reduce)').matches}catch(e){}
  if(mk&&!seen&&!rm){
    var keep=mk.textContent;
    mk.textContent='M1NDC4CH3';mk.classList.add('is-leet');
    setTimeout(function(){mk.textContent=keep;mk.classList.remove('is-leet')},800);
  }
  if(!seen){try{localStorage.setItem('mind-seen','1')}catch(e){}}
}catch(e){}

var q=document.getElementById('q');
if(q){
  var idx=null,res=document.getElementById('results'),st=document.getElementById('qstatus');
  function say(t){if(st)st.textContent=t}
  var band=q.closest('.band');
  function drop(){if(band&&band.parentElement)band.parentElement.removeChild(band)}
  function render(hits){
    if(!res)return;
    res.textContent='';
    var ul=document.createElement('ul');ul.className='rows';
    for(var i=0;i<hits.length;i++){
      var e=hits[i],li=document.createElement('li');li.className='row';
      var dt=document.createElement('span');dt.className='row-date';dt.textContent=(e.created||'').slice(0,10);
      var main=document.createElement('div');main.className='row-main';
      var a=document.createElement('a');a.className='row-title';a.href='pages/'+e.stem+'.html';a.textContent=e.title;
      var kind=document.createElement('span');kind.className='row-kind';kind.textContent=e.dir||'';
      main.appendChild(a);main.appendChild(kind);
      var facets=document.createElement('span');facets.className='row-facets';
      var tg=e.tags||[];
      for(var k=0;k<tg.length;k++){
        var t=document.createElement('span');t.className='tag';t.textContent=tg[k];facets.appendChild(t);
      }
      if(tg.length)main.appendChild(facets);
      li.appendChild(dt);li.appendChild(main);ul.appendChild(li);
    }
    res.appendChild(ul);
  }
  // 无 fetch（file:// 或老浏览器）时隐藏检索面板，而不是留一个坏掉的控件
  if(typeof fetch!=='function'){drop();return}
  fetch('search.json').then(function(r){return r.json()}).then(function(dd){
    idx=dd.entries||[];say('索引就绪 / INDEX READY · '+idx.length+' 条');
    if(q.value)q.dispatchEvent(new Event('input'));
  }).catch(drop);
  q.addEventListener('input',function(){
    if(!idx){return}
    var s=q.value.toLowerCase().trim();
    if(!s){if(res)res.textContent='';say('输入关键词检索标题 / 标签 / 正文');return}
    var hits=[];
    for(var k=0;k<idx.length&&hits.length<50;k++){
      var e=idx[k];
      if((e.title+' '+(e.tags||[]).join(' ')+' '+e.body).toLowerCase().indexOf(s)>=0)hits.push(e);
    }
    say(hits.length+' 条命中 / MATCHES');
    render(hits);
  });
}
})();"#;

// ------------------------------------------------------------------ small parts

/// Link prefix from a page back to the site root: detail pages (no rail
/// entry) live in `pages/`, every other page at the root.
pub open spec fn root_of_spec(nav: Seq<char>) -> Seq<char> {
    if nav.len() == 0 {
        "../"@
    } else {
        ""@
    }
}

/// Link prefix of a page whose rail entry is `nav_active`.
pub fn root_of(nav_active: &str) -> (r: &'static str)
    ensures
        r@ == root_of_spec(nav_active@),
{
    if nav_active.is_empty() {
        "../"
    } else {
        ""
    }
}

/// The rail's six entries: file, key, number and label.
pub open spec fn nav_item(i: int) -> (Seq<char>, Seq<char>, Seq<char>, Seq<char>) {
    if i == 0 {
        ("index.html"@, "index"@, "01"@, "索引"@)
    } else if i == 1 {
        ("inbox.html"@, "inbox"@, "02"@, "收件"@)
    } else if i == 2 {
        ("todo.html"@, "todo"@, "03"@, "待办"@)
    } else if i == 3 {
        ("ideas.html"@, "ideas"@, "04"@, "想法"@)
    } else if i == 4 {
        ("notes.html"@, "notes"@, "05"@, "笔记"@)
    } else {
        ("tags.html"@, "tags"@, "06"@, "标签"@)
    }
}

fn nav_entry(i: usize) -> (r: (&'static str, &'static str, &'static str, &'static str))
    requires
        i < 6,
    ensures
        (r.0@, r.1@, r.2@, r.3@) == nav_item(i as int),
{
    if i == 0 {
        ("index.html", "index", "01", "索引")
    } else if i == 1 {
        ("inbox.html", "inbox", "02", "收件")
    } else if i == 2 {
        ("todo.html", "todo", "03", "待办")
    } else if i == 3 {
        ("ideas.html", "ideas", "04", "想法")
    } else if i == 4 {
        ("notes.html", "notes", "05", "笔记")
    } else {
        ("tags.html", "tags", "06", "标签")
    }
}

pub open spec fn rail_item(i: int, active: Seq<char>, root: Seq<char>) -> Seq<char> {
    let (href, key, idx, label) = nav_item(i);
    "<li><a class=\"rail-link\" href=\""@ + root + href + "\""@ + (if key == active {
        " aria-current=\"page\""@
    } else {
        ""@
    }) + "><span class=\"rail-idx\">"@ + idx + "</span><span class=\"rail-label\">"@ + label
        + "</span></a></li>"@
}

pub open spec fn rail_items(n: int, active: Seq<char>, root: Seq<char>) -> Seq<char>
    decreases n,
{
    if n <= 0 {
        Seq::empty()
    } else {
        rail_items(n - 1, active, root) + rail_item(n - 1, active, root)
    }
}

/// The navigation rail, with `active` marked as the current page.
pub open spec fn rail_spec(active: Seq<char>, root: Seq<char>) -> Seq<char> {
    "<nav class=\"rail\" aria-label=\"档案导航\"><ul class=\"rail-list\">"@ + rail_items(6, active, root)
        + "</ul></nav>"@
}

/// The navigation rail.
pub fn rail(active: &str, root: &str) -> (r: String)
    ensures
        r@ == rail_spec(active@, root@),
{
    let mut items = String::new();
    let mut i: usize = 0;
    while i < 6
        invariant
            i <= 6,
            items@ == rail_items(i as int, active@, root@),
        decreases 6 - i,
    {
        let (href, key, idx, label) = nav_entry(i);
        let cur = if crate::text::eq_str(key, active) {
            " aria-current=\"page\""
        } else {
            ""
        };
        let mut it = String::from_str("<li><a class=\"rail-link\" href=\"");
        append_str(&mut it, root);
        append_str(&mut it, href);
        append_str(&mut it, "\"");
        append_str(&mut it, cur);
        append_str(&mut it, "><span class=\"rail-idx\">");
        append_str(&mut it, idx);
        append_str(&mut it, "</span><span class=\"rail-label\">");
        append_str(&mut it, label);
        append_str(&mut it, "</span></a></li>");
        append_str(&mut items, it.as_str());
        i += 1;
    }
    let mut r = String::from_str("<nav class=\"rail\" aria-label=\"档案导航\"><ul class=\"rail-list\">");
    append_str(&mut r, items.as_str());
    append_str(&mut r, "</ul></nav>");
    r
}

/// `text` wrapped in `open` and `close`, or nothing when `text` is empty.
pub open spec fn wrap_nonempty(open: Seq<char>, text: Seq<char>, close: Seq<char>) -> Seq<char> {
    if text.len() == 0 {
        Seq::empty()
    } else {
        open + text + close
    }
}

fn wrap_if(open: &str, text: &str, close: &str) -> (r: String)
    ensures
        r@ == wrap_nonempty(open@, text@, close@),
{
    if text.is_empty() {
        String::new()
    } else {
        let mut r = open.to_owned();
        append_str(&mut r, text);
        append_str(&mut r, close);
        r
    }
}

/// The page stage: the one large identifier with its kicker, meta line,
/// actions and aside.
pub open spec fn stage_spec(
    kicker: Seq<char>,
    ident: Seq<char>,
    meta: Seq<char>,
    aside: Seq<char>,
    actions: Seq<char>,
    reveal: Seq<char>,
) -> Seq<char> {
    "<section class=\"stage "@ + reveal
        + "\" aria-label=\"档案标识\"><div class=\"stage-layer\" aria-hidden=\"true\"></div><div class=\"stage-body\"><p class=\"stage-kicker\">"@
        + kicker + "</p><h1 class=\"stage-id\">"@ + ident + "</h1><p class=\"stage-meta\">"@ + meta
        + "</p>"@ + wrap_nonempty("<div class=\"stage-actions\">"@, actions, "</div>"@) + "</div>"@
        + wrap_nonempty("<div class=\"stage-aside\">"@, aside, "</div>"@) + "</section>"@
}

/// The page stage.
pub fn stage(kicker: &str, ident: &str, meta: &str, aside: &str, actions: &str, reveal: &str) -> (r:
    String)
    ensures
        r@ == stage_spec(kicker@, ident@, meta@, aside@, actions@, reveal@),
{
    let aside_part = wrap_if("<div class=\"stage-aside\">", aside, "</div>");
    let actions_part = wrap_if("<div class=\"stage-actions\">", actions, "</div>");
    let mut r = String::from_str("<section class=\"stage ");
    append_str(&mut r, reveal);
    append_str(
        &mut r,
        "\" aria-label=\"档案标识\"><div class=\"stage-layer\" aria-hidden=\"true\"></div><div class=\"stage-body\"><p class=\"stage-kicker\">",
    );
    append_str(&mut r, kicker);
    append_str(&mut r, "</p><h1 class=\"stage-id\">");
    append_str(&mut r, ident);
    append_str(&mut r, "</h1><p class=\"stage-meta\">");
    append_str(&mut r, meta);
    append_str(&mut r, "</p>");
    append_str(&mut r, actions_part.as_str());
    append_str(&mut r, "</div>");
    append_str(&mut r, aside_part.as_str());
    append_str(&mut r, "</section>");
    r
}

/// The page-level micro label: the word mark, then the CJK and Latin parts.
pub open spec fn kicker_spec(cjk: Seq<char>, en: Seq<char>) -> Seq<char> {
    "<span class=\"mark\" aria-hidden=\"true\">"@ + MARK@ + "</span> <span>"@ + cjk
        + "</span> <span class=\"en\">"@ + en + "</span>"@
}

/// The page-level micro label.
pub fn kicker(cjk: &str, en: &str) -> (r: String)
    ensures
        r@ == kicker_spec(cjk@, en@),
{
    let mut r = String::from_str("<span class=\"mark\" aria-hidden=\"true\">");
    append_str(&mut r, MARK);
    append_str(&mut r, "</span> <span>");
    append_str(&mut r, cjk);
    append_str(&mut r, "</span> <span class=\"en\">");
    append_str(&mut r, en);
    append_str(&mut r, "</span>");
    r
}

/// A band: a titled section of a page, with an optional anchor id and
/// subtitle.
pub open spec fn band_spec(
    id: Seq<char>,
    code: Seq<char>,
    title: Seq<char>,
    sub: Seq<char>,
    body: Seq<char>,
    cls: Seq<char>,
) -> Seq<char> {
    "<section class=\"band "@ + cls + "\""@ + wrap_nonempty(" id=\""@, id, "\""@)
        + "><div class=\"band-head\"><span class=\"band-code\">"@ + code
        + "</span><h2 class=\"band-title\">"@ + title + "</h2>"@ + wrap_nonempty(
        "<span class=\"band-sub\">"@,
        sub,
        "</span>"@,
    ) + "<span class=\"band-rule\" aria-hidden=\"true\"></span></div><div class=\"band-body\">"@ + body
        + "</div></section>"@
}

/// A band.
pub fn band(id: &str, code: &str, title: &str, sub: &str, body: &str, cls: &str) -> (r: String)
    ensures
        r@ == band_spec(id@, code@, title@, sub@, body@, cls@),
{
    let id_part = wrap_if(" id=\"", id, "\"");
    let sub_part = wrap_if("<span class=\"band-sub\">", sub, "</span>");
    let mut r = String::from_str("<section class=\"band ");
    append_str(&mut r, cls);
    append_str(&mut r, "\"");
    append_str(&mut r, id_part.as_str());
    append_str(&mut r, "><div class=\"band-head\"><span class=\"band-code\">");
    append_str(&mut r, code);
    append_str(&mut r, "</span><h2 class=\"band-title\">");
    append_str(&mut r, title);
    append_str(&mut r, "</h2>");
    append_str(&mut r, sub_part.as_str());
    append_str(
        &mut r,
        "<span class=\"band-rule\" aria-hidden=\"true\"></span></div><div class=\"band-body\">",
    );
    append_str(&mut r, body);
    append_str(&mut r, "</div></section>");
    r
}

/// An action link.
pub open spec fn action_spec(href: Seq<char>, label: Seq<char>, cls: Seq<char>) -> Seq<char> {
    "<a class=\"act "@ + cls + "\" href=\""@ + href + "\">"@ + label + "</a>"@
}

/// An action link.
pub fn action(href: &str, label: &str, cls: &str) -> (r: String)
    ensures
        r@ == action_spec(href@, label@, cls@),
{
    let mut r = String::from_str("<a class=\"act ");
    append_str(&mut r, cls);
    append_str(&mut r, "\" href=\"");
    append_str(&mut r, href);
    append_str(&mut r, "\">");
    append_str(&mut r, label);
    append_str(&mut r, "</a>");
    r
}


// ------------------------------------------------------------------ distribution

/// One segment of the distribution ring: a CJK label, a Latin micro label,
/// a count, a kind (0 neutral, 1 signal, 2 state) and the stroke opacity of a
/// neutral segment.
pub struct Seg {
    pub label: &'static str,
    pub en: &'static str,
    pub n: usize,
    pub kind: u8,
    pub op: &'static str,
}

/// A segment with its texts as character sequences.
pub struct SegView {
    pub label: Seq<char>,
    pub en: Seq<char>,
    pub n: usize,
    pub kind: u8,
    pub op: Seq<char>,
}

impl View for Seg {
    type V = SegView;

    open spec fn view(&self) -> SegView {
        SegView { label: self.label@, en: self.en@, n: self.n, kind: self.kind, op: self.op@ }
    }
}

/// The views of a list of segments.
pub open spec fn segs_view(ss: Seq<Seg>) -> Seq<SegView>
    decreases ss.len(),
{
    if ss.len() == 0 {
        Seq::empty()
    } else {
        segs_view(ss.drop_last()).push(ss.last()@)
    }
}

pub proof fn lemma_segs_view(ss: Seq<Seg>)
    ensures
        segs_view(ss).len() == ss.len(),
        forall|i: int| 0 <= i < ss.len() ==> #[trigger] segs_view(ss)[i] == ss[i]@,
    decreases ss.len(),
{
    if ss.len() > 0 {
        lemma_segs_view(ss.drop_last());
        assert forall|i: int| 0 <= i < ss.len() implies #[trigger] segs_view(ss)[i] == ss[i]@ by {
            if i < ss.len() - 1 {
                assert(ss.drop_last()[i] == ss[i]);
            }
        }
    }
}

/// Sum of the counts of the first `k` segments.
pub open spec fn seg_sum(ss: Seq<SegView>, k: int) -> int
    decreases k,
{
    if k <= 0 {
        0
    } else {
        seg_sum(ss, k - 1) + ss[k - 1].n
    }
}

pub open spec fn seg_total(ss: Seq<SegView>) -> int {
    seg_sum(ss, ss.len() as int)
}

proof fn lemma_seg_sum_mono(ss: Seq<SegView>, j: int, k: int)
    requires
        0 <= j <= k,
    ensures
        seg_sum(ss, j) <= seg_sum(ss, k),
    decreases k - j,
{
    if j < k {
        lemma_seg_sum_mono(ss, j, k - 1);
    }
}

fn seg_count_total(segs: &[Seg]) -> (t: usize)
    requires
        seg_total(segs_view(segs@)) <= usize::MAX,
    ensures
        t == seg_total(segs_view(segs@)),
{
    let ghost sv = segs_view(segs@);
    proof {
        lemma_segs_view(segs@);
    }
    let mut t: usize = 0;
    let mut i: usize = 0;
    while i < segs.len()
        invariant
            i <= segs@.len(),
            sv == segs_view(segs@),
            sv.len() == segs@.len(),
            forall|j: int| 0 <= j < segs@.len() ==> #[trigger] sv[j] == segs@[j]@,
            t == seg_sum(sv, i as int),
            seg_total(sv) <= usize::MAX,
        decreases segs@.len() - i,
    {
        proof {
            lemma_seg_sum_mono(sv, i + 1, sv.len() as int);
            assert(sv[i as int] == segs@[i as int]@);
        }
        t = t + segs[i].n;
        i += 1;
    }
    t
}

/// `label n` for each of the first `k` segments, separated by `、`.
pub open spec fn ring_desc(ss: Seq<SegView>, k: int) -> Seq<char>
    decreases k,
{
    if k <= 0 {
        Seq::empty()
    } else if k == 1 {
        ss[0].label + " "@ + decimal(ss[0].n as nat)
    } else {
        ring_desc(ss, k - 1) + "、"@ + (ss[k - 1].label + " "@ + decimal(ss[k - 1].n as nat))
    }
}

/// The distribution ring: the accessible description, the base circle, the
/// arcs (drawn only when there is at least one entry) and the total.
pub open spec fn ring_spec(ss: Seq<SegView>, arcs: Seq<char>) -> Seq<char> {
    let total = seg_total(ss);
    let aria = "库内分布："@ + ring_desc(ss, ss.len() as int) + "，共 "@ + decimal(total as nat)
        + " 条"@;
    "<svg class=\"ring\" viewBox=\"0 0 132 132\" role=\"img\" aria-label=\""@ + aria
        + "\"><circle cx=\"66\" cy=\"66\" r=\"54\" fill=\"none\" stroke=\"var(--ark-stage-line)\" stroke-width=\"6\"/>"@
        + (if total > 0 {
        arcs
    } else {
        Seq::empty()
    }) + "<text class=\"ring-num\" x=\"66\" y=\"64\" text-anchor=\"middle\">"@ + decimal(total as nat)
        + "</text><text class=\"ring-cap\" x=\"66\" y=\"80\" text-anchor=\"middle\">ENTRIES</text></svg>"@
}

/// The distribution ring around the total count. `arcs` is the markup of the
/// arc circles, one per nonzero segment in order (their lengths are
/// floating point geometry, drawn by the caller); it is left out when the
/// total is zero.
pub fn ring(segs: &[Seg], arcs: &str) -> (r: String)
    requires
        seg_total(segs_view(segs@)) <= usize::MAX,
    ensures
        r@ == ring_spec(segs_view(segs@), arcs@),
{
    let ghost sv = segs_view(segs@);
    proof {
        lemma_segs_view(segs@);
    }
    let total = seg_count_total(segs);
    let mut desc = String::new();
    let mut i: usize = 0;
    while i < segs.len()
        invariant
            i <= segs@.len(),
            sv == segs_view(segs@),
            sv.len() == segs@.len(),
            forall|j: int| 0 <= j < segs@.len() ==> #[trigger] sv[j] == segs@[j]@,
            desc@ == ring_desc(sv, i as int),
        decreases segs@.len() - i,
    {
        proof {
            assert(sv[i as int] == segs@[i as int]@);
            assert(sv[0] == segs@[0]@);
        }
        let mut item = segs[i].label.to_owned();
        append_str(&mut item, " ");
        append_str(&mut item, fmt_usize(segs[i].n).as_str());
        if i > 0 {
            append_str(&mut desc, "、");
            append_str(&mut desc, item.as_str());
        } else {
            desc = item;
        }
        i += 1;
    }
    let mut aria = String::from_str("库内分布：");
    append_str(&mut aria, desc.as_str());
    append_str(&mut aria, "，共 ");
    append_str(&mut aria, fmt_usize(total).as_str());
    append_str(&mut aria, " 条");
    let mut r = String::from_str("<svg class=\"ring\" viewBox=\"0 0 132 132\" role=\"img\" aria-label=\"");
    append_str(&mut r, aria.as_str());
    append_str(
        &mut r,
        "\"><circle cx=\"66\" cy=\"66\" r=\"54\" fill=\"none\" stroke=\"var(--ark-stage-line)\" stroke-width=\"6\"/>",
    );
    if total > 0 {
        append_str(&mut r, arcs);
    } else {
        assert(r@ + Seq::<char>::empty() =~= r@);
    }
    append_str(&mut r, "<text class=\"ring-num\" x=\"66\" y=\"64\" text-anchor=\"middle\">");
    append_str(&mut r, fmt_usize(total).as_str());
    append_str(
        &mut r,
        "</text><text class=\"ring-cap\" x=\"66\" y=\"80\" text-anchor=\"middle\">ENTRIES</text></svg>",
    );
    r
}

/// The stroke colour of a segment's arc.
pub open spec fn seg_stroke_spec(kind: u8) -> Seq<char> {
    if kind == 1 {
        "var(--ark-signal)"@
    } else if kind == 2 {
        "var(--ark-state)"@
    } else {
        "var(--ark-stage-ink)"@
    }
}

/// The stroke colour of a segment's arc.
pub fn seg_stroke(kind: u8) -> (r: &'static str)
    ensures
        r@ == seg_stroke_spec(kind),
{
    if kind == 1 {
        "var(--ark-signal)"
    } else if kind == 2 {
        "var(--ark-state)"
    } else {
        "var(--ark-stage-ink)"
    }
}

pub open spec fn legend_item(s: SegView) -> Seq<char> {
    let cls = if s.kind == 1 {
        "swatch is-signal"@
    } else if s.kind == 2 {
        "swatch is-state"@
    } else {
        "swatch"@
    };
    let op = if s.kind == 0 {
        s.op
    } else {
        "1"@
    };
    "<li><span class=\""@ + cls + "\" style=\"opacity:"@ + op + "\"></span><span>"@ + s.label
        + "</span><span class=\"en\">"@ + s.en + "</span><b>"@ + decimal(s.n as nat) + "</b></li>"@
}

pub open spec fn legend_items(ss: Seq<SegView>, k: int) -> Seq<char>
    decreases k,
{
    if k <= 0 {
        Seq::empty()
    } else {
        legend_items(ss, k - 1) + legend_item(ss[k - 1])
    }
}

/// The ring's legend, one line per segment, and a line for the overdue
/// todos (a subset of the open ones) when there are any.
pub open spec fn legend_spec(ss: Seq<SegView>, overdue: usize) -> Seq<char> {
    "<ul class=\"legend\">"@ + (legend_items(ss, ss.len() as int) + (if overdue > 0 {
        "<li><span class=\"swatch is-state\"></span><span>其中逾期</span><span class=\"en\">OVERDUE</span><b>"@
            + decimal(overdue as nat) + "</b></li>"@
    } else {
        Seq::empty()
    })) + "</ul>"@
}

/// The ring's legend.
pub fn legend(segs: &[Seg], overdue: usize) -> (r: String)
    ensures
        r@ == legend_spec(segs_view(segs@), overdue),
{
    let ghost sv = segs_view(segs@);
    proof {
        lemma_segs_view(segs@);
    }
    let mut li = String::new();
    let mut i: usize = 0;
    while i < segs.len()
        invariant
            i <= segs@.len(),
            sv == segs_view(segs@),
            sv.len() == segs@.len(),
            forall|j: int| 0 <= j < segs@.len() ==> #[trigger] sv[j] == segs@[j]@,
            li@ == legend_items(sv, i as int),
        decreases segs@.len() - i,
    {
        proof {
            assert(sv[i as int] == segs@[i as int]@);
        }
        let s = &segs[i];
        let cls = if s.kind == 1 {
            "swatch is-signal"
        } else if s.kind == 2 {
            "swatch is-state"
        } else {
            "swatch"
        };
        let op = if s.kind == 0 {
            s.op
        } else {
            "1"
        };
        let mut it = String::from_str("<li><span class=\"");
        append_str(&mut it, cls);
        append_str(&mut it, "\" style=\"opacity:");
        append_str(&mut it, op);
        append_str(&mut it, "\"></span><span>");
        append_str(&mut it, s.label);
        append_str(&mut it, "</span><span class=\"en\">");
        append_str(&mut it, s.en);
        append_str(&mut it, "</span><b>");
        append_str(&mut it, fmt_usize(s.n).as_str());
        append_str(&mut it, "</b></li>");
        append_str(&mut li, it.as_str());
        i += 1;
    }
    if overdue > 0 {
        let mut it = String::from_str(
            "<li><span class=\"swatch is-state\"></span><span>其中逾期</span><span class=\"en\">OVERDUE</span><b>",
        );
        append_str(&mut it, fmt_usize(overdue).as_str());
        append_str(&mut it, "</b></li>");
        append_str(&mut li, it.as_str());
    } else {
        assert(li@ + Seq::<char>::empty() =~= li@);
    }
    let mut r = String::from_str("<ul class=\"legend\">");
    append_str(&mut r, li.as_str());
    append_str(&mut r, "</ul>");
    r
}

// ------------------------------------------------------------------ capture activity

/// The days as text and count.
pub open spec fn days_view(ds: Seq<(String, usize)>) -> Seq<(Seq<char>, usize)>
    decreases ds.len(),
{
    if ds.len() == 0 {
        Seq::empty()
    } else {
        days_view(ds.drop_last()).push((ds.last().0@, ds.last().1))
    }
}

pub proof fn lemma_days_view(ds: Seq<(String, usize)>)
    ensures
        days_view(ds).len() == ds.len(),
        forall|i: int| 0 <= i < ds.len() ==> #[trigger] days_view(ds)[i] == (ds[i].0@, ds[i].1),
    decreases ds.len(),
{
    if ds.len() > 0 {
        lemma_days_view(ds.drop_last());
        assert forall|i: int| 0 <= i < ds.len() implies #[trigger] days_view(ds)[i] == (ds[i].0@, ds[i].1) by {
            if i < ds.len() - 1 {
                assert(ds.drop_last()[i] == ds[i]);
            }
        }
    }
}

/// Sum of the counts of the first `k` days.
pub open spec fn day_sum(ds: Seq<(Seq<char>, usize)>, k: int) -> int
    decreases k,
{
    if k <= 0 {
        0
    } else {
        day_sum(ds, k - 1) + ds[k - 1].1
    }
}

/// Largest count among the first `k` days (0 for none).
pub open spec fn day_max(ds: Seq<(Seq<char>, usize)>, k: int) -> int
    decreases k,
{
    if k <= 0 {
        0
    } else {
        let m = day_max(ds, k - 1);
        if ds[k - 1].1 > m {
            ds[k - 1].1 as int
        } else {
            m
        }
    }
}

/// The scale of the bars: the largest count, at least 1.
pub open spec fn day_scale(ds: Seq<(Seq<char>, usize)>) -> int {
    let m = day_max(ds, ds.len() as int);
    if m > 1 {
        m
    } else {
        1
    }
}

/// Height in pixels of a day's bar: 3, plus up to 27 in proportion to the
/// largest count.
pub open spec fn bar_height(n: int, scale: int) -> int {
    let h = n * 27 / scale;
    3 + if h < 27 {
        h
    } else {
        27
    }
}

pub open spec fn activity_bar(d: (Seq<char>, usize), scale: int) -> Seq<char> {
    "<span class=\"activity-day"@ + (if d.1 > 0 {
        " has"@
    } else {
        ""@
    }) + "\" style=\"height:"@ + decimal(bar_height(d.1 as int, scale) as nat) + "px\" title=\""@
        + d.0 + " · "@ + decimal(d.1 as nat) + " 条\"></span>"@
}

pub open spec fn activity_bars(ds: Seq<(Seq<char>, usize)>, k: int, scale: int) -> Seq<char>
    decreases k,
{
    if k <= 0 {
        Seq::empty()
    } else {
        activity_bars(ds, k - 1, scale) + activity_bar(ds[k - 1], scale)
    }
}

/// The counts fit the machine: each times 27, and their sum.
pub open spec fn activity_fits(ds: Seq<(Seq<char>, usize)>) -> bool {
    &&& forall|i: int| 0 <= i < ds.len() ==> #[trigger] ds[i].1 * 27 <= usize::MAX
    &&& day_sum(ds, ds.len() as int) <= usize::MAX
}

/// The capture readout: one bar per day, scaled to the busiest day.
pub open spec fn activity_spec(ds: Seq<(Seq<char>, usize)>) -> Seq<char> {
    let win = ds.len();
    let hits = day_sum(ds, ds.len() as int);
    "<div class=\"stage-readout\"><span>最近 "@ + decimal(win) + " 天捕获</span><span class=\"en\">CAPTURE</span><div class=\"activity\" role=\"img\" aria-label=\"最近 "@
        + decimal(win) + " 天共捕获 "@ + decimal(hits as nat) + " 条\">"@ + activity_bars(
        ds,
        ds.len() as int,
        day_scale(ds),
    ) + "</div></div>"@
}

proof fn lemma_day_sum_mono(ds: Seq<(Seq<char>, usize)>, j: int, k: int)
    requires
        0 <= j <= k,
    ensures
        day_sum(ds, j) <= day_sum(ds, k),
    decreases k - j,
{
    if j < k {
        lemma_day_sum_mono(ds, j, k - 1);
    }
}

/// The capture readout of the last days, each `(MM-DD, count)`.
pub fn activity(days: &[(String, usize)]) -> (r: String)
    requires
        activity_fits(days_view(days@)),
    ensures
        r@ == activity_spec(days_view(days@)),
{
    let ghost dv = days_view(days@);
    proof {
        lemma_days_view(days@);
    }
    let n = days.len();
    let mut hits: usize = 0;
    let mut mx: usize = 0;
    let mut i: usize = 0;
    while i < n
        invariant
            n == days@.len(),
            i <= n,
            dv == days_view(days@),
            dv.len() == n,
            forall|j: int| 0 <= j < n ==> #[trigger] dv[j] == (days@[j].0@, days@[j].1),
            hits == day_sum(dv, i as int),
            mx == day_max(dv, i as int),
            activity_fits(dv),
        decreases n - i,
    {
        proof {
            lemma_day_sum_mono(dv, i + 1, n as int);
            assert(dv[i as int] == (days@[i as int].0@, days@[i as int].1));
        }
        hits = hits + days[i].1;
        if days[i].1 > mx {
            mx = days[i].1;
        }
        i += 1;
    }
    let scale: usize = if mx > 1 {
        mx
    } else {
        1
    };
    let mut bars = String::new();
    let mut k: usize = 0;
    while k < n
        invariant
            n == days@.len(),
            k <= n,
            dv == days_view(days@),
            dv.len() == n,
            forall|j: int| 0 <= j < n ==> #[trigger] dv[j] == (days@[j].0@, days@[j].1),
            scale == day_scale(dv),
            scale >= 1,
            activity_fits(dv),
            bars@ == activity_bars(dv, k as int, scale as int),
        decreases n - k,
    {
        let d = &days[k];
        assert(dv[k as int] == (days@[k as int].0@, days@[k as int].1));
        assert(dv[k as int].1 * 27 <= usize::MAX);
        let q = d.1 * 27 / scale;
        let h: usize = 3 + if q < 27 {
            q
        } else {
            27
        };
        let has = if d.1 > 0 {
            " has"
        } else {
            ""
        };
        let mut it = String::from_str("<span class=\"activity-day");
        append_str(&mut it, has);
        append_str(&mut it, "\" style=\"height:");
        append_str(&mut it, fmt_usize(h).as_str());
        append_str(&mut it, "px\" title=\"");
        append_str(&mut it, d.0.as_str());
        append_str(&mut it, " · ");
        append_str(&mut it, fmt_usize(d.1).as_str());
        append_str(&mut it, " 条\"></span>");
        append_str(&mut bars, it.as_str());
        k += 1;
    }
    let mut r = String::from_str("<div class=\"stage-readout\"><span>最近 ");
    append_str(&mut r, fmt_usize(n).as_str());
    append_str(
        &mut r,
        " 天捕获</span><span class=\"en\">CAPTURE</span><div class=\"activity\" role=\"img\" aria-label=\"最近 ",
    );
    append_str(&mut r, fmt_usize(n).as_str());
    append_str(&mut r, " 天共捕获 ");
    append_str(&mut r, fmt_usize(hits).as_str());
    append_str(&mut r, " 条\">");
    append_str(&mut r, bars.as_str());
    append_str(&mut r, "</div></div>");
    r
}


// ------------------------------------------------------------------ chronology scale

/// The entries behind a list of references.
pub open spec fn deref_all<'a>(s: Seq<&'a Entry>) -> Seq<Entry> {
    Seq::new(s.len(), |i: int| *s[i])
}

/// The creation times of the entries whose `created` reads, in order.
pub open spec fn times_of(es: Seq<Entry>) -> Seq<i64>
    decreases es.len(),
{
    if es.len() == 0 {
        Seq::empty()
    } else {
        let t = times_of(es.drop_last());
        match parse_created_spec(es.last().fm.created@) {
            Some(x) => t.push(x),
            None => t,
        }
    }
}

pub open spec fn seq_min(ts: Seq<i64>) -> int
    decreases ts.len(),
{
    if ts.len() <= 1 {
        if ts.len() == 1 {
            ts[0] as int
        } else {
            0
        }
    } else {
        let m = seq_min(ts.drop_last());
        if ts.last() < m {
            ts.last() as int
        } else {
            m
        }
    }
}

pub open spec fn seq_max(ts: Seq<i64>) -> int
    decreases ts.len(),
{
    if ts.len() <= 1 {
        if ts.len() == 1 {
            ts[0] as int
        } else {
            0
        }
    } else {
        let m = seq_max(ts.drop_last());
        if ts.last() > m {
            ts.last() as int
        } else {
            m
        }
    }
}

/// The chronology scale along the recent list: the end labels are the
/// newest and the oldest entry's `MM-DD`; the proportional ticks (made by
/// the caller, one per time) are shown only when the times span at least a
/// week; nothing at all with fewer than two readable times.
pub open spec fn scale_spec(es: Seq<Entry>, ticks: Seq<char>) -> Seq<char> {
    let ts = times_of(es);
    if ts.len() < 2 {
        Seq::empty()
    } else {
        "<div class=\"scale\" aria-hidden=\"true\">"@ + (if seq_max(ts) - seq_min(ts) >= 604800 {
            ticks
        } else {
            Seq::empty()
        })
            + "<span class=\"scale-tick is-end is-top\"></span><span class=\"scale-tick is-end is-bottom\"></span><span class=\"scale-end is-top\">"@
            + short_date_spec(es[0].fm.created@) + "</span><span class=\"scale-end is-bottom\">"@
            + short_date_spec(es.last().fm.created@) + "</span></div>"@
    }
}

pub proof fn lemma_times_len(es: Seq<Entry>)
    ensures
        times_of(es).len() <= es.len(),
    decreases es.len(),
{
    if es.len() > 0 {
        lemma_times_len(es.drop_last());
    }
}

/// The creation times of the entries whose `created` reads, in order (the
/// times the scale's ticks stand for).
pub fn scale_times(entries: &[&Entry]) -> (ts: Vec<i64>)
    ensures
        ts@ == times_of(deref_all(entries@)),
{
    let ghost es = deref_all(entries@);
    let mut ts: Vec<i64> = Vec::new();
    let mut i: usize = 0;
    assert(es.take(0) =~= Seq::<Entry>::empty());
    while i < entries.len()
        invariant
            i <= entries@.len(),
            es == deref_all(entries@),
            ts@ == times_of(es.take(i as int)),
        decreases entries@.len() - i,
    {
        proof {
            assert(es.take(i + 1).drop_last() =~= es.take(i as int));
            assert(es.take(i + 1).last() == *entries@[i as int]);
        }
        match crate::dates::parse_created(entries[i].fm.created.as_str()) {
            Some(t) => ts.push(t),
            None => {},
        }
        i += 1;
    }
    assert(es.take(es.len() as int) =~= es);
    ts
}

fn span_is_week(ts: &Vec<i64>) -> (b: bool)
    requires
        ts@.len() >= 2,
    ensures
        b == (seq_max(ts@) - seq_min(ts@) >= 604800),
{
    let mut lo: i64 = ts[0];
    let mut hi: i64 = ts[0];
    let mut i: usize = 1;
    assert(ts@.take(1) =~= seq![ts@[0]]);
    while i < ts.len()
        invariant
            1 <= i <= ts@.len(),
            lo == seq_min(ts@.take(i as int)),
            hi == seq_max(ts@.take(i as int)),
        decreases ts@.len() - i,
    {
        proof {
            assert(ts@.take(i + 1).drop_last() =~= ts@.take(i as int));
        }
        if ts[i] < lo {
            lo = ts[i];
        }
        if ts[i] > hi {
            hi = ts[i];
        }
        i += 1;
    }
    assert(ts@.take(ts@.len() as int) =~= ts@);
    (hi as i128) - (lo as i128) >= 604800
}

/// The chronology scale (see `scale_spec`); `ticks` is the markup of the
/// proportional ticks.
pub fn scale(entries: &[&Entry], ticks: &str) -> (r: String)
    ensures
        r@ == scale_spec(deref_all(entries@), ticks@),
{
    let ts = scale_times(entries);
    if ts.len() < 2 {
        return String::new();
    }
    proof {
        lemma_times_len(deref_all(entries@));
    }
    let newest = short_date(entries[0].fm.created.as_str());
    let oldest = short_date(entries[entries.len() - 1].fm.created.as_str());
    let mut r = String::from_str("<div class=\"scale\" aria-hidden=\"true\">");
    if span_is_week(&ts) {
        append_str(&mut r, ticks);
    } else {
        assert(r@ + Seq::<char>::empty() =~= r@);
    }
    append_str(
        &mut r,
        "<span class=\"scale-tick is-end is-top\"></span><span class=\"scale-tick is-end is-bottom\"></span><span class=\"scale-end is-top\">",
    );
    append_str(&mut r, newest.as_str());
    append_str(&mut r, "</span><span class=\"scale-end is-bottom\">");
    append_str(&mut r, oldest.as_str());
    append_str(&mut r, "</span></div>");
    r
}

// ------------------------------------------------------------------ rows

/// An open todo whose due date sorts before `today`.
pub open spec fn is_overdue_spec(e: Entry, today: Seq<char>) -> bool {
    &&& e.fm.type_@ == "todo"@
    &&& !is_done_spec(e)
    &&& opt_view(e.fm.due) matches Some(d) && str_lt(d, today)
}

fn is_overdue(e: &Entry, today: &str) -> (b: bool)
    ensures
        b == is_overdue_spec(*e, today@),
{
    crate::text::eq_str(e.fm.type_.as_str(), "todo") && !is_done_entry(e) && match &e.fm.due {
        Some(d) => str_less(d.as_str(), today),
        None => false,
    }
}

/// The state column of a row: nothing for entries that are not todos; a
/// done badge with the `done` date; an open badge, with the due date marked
/// overdue when it sorts before `today`. The dates are written as they are
/// shown, without HTML escaping.
pub open spec fn row_state_spec(e: Entry, today: Seq<char>) -> Seq<char> {
    if e.fm.type_@ != "todo"@ {
        Seq::empty()
    } else if is_done_spec(e) {
        "<span class=\"badge is-done\"><span class=\"badge-mark\"></span><span>完成</span><span class=\"en\">DONE</span>"@
            + (match opt_view(e.fm.done) {
            Some(d) => if d.len() == 0 {
                Seq::empty()
            } else {
                " <span class=\"num\">"@ + short_date_spec(d) + "</span>"@
            },
            None => Seq::empty(),
        }) + "</span>"@
    } else {
        "<span class=\"badge is-open\"><span class=\"badge-mark\"></span><span>进行中</span><span class=\"en\">OPEN</span></span>"@
            + match opt_view(e.fm.due) {
            Some(d) => if str_lt(d, today) {
                "<span class=\"badge is-overdue\"><span class=\"badge-mark\"></span><span>逾期</span><span class=\"en\">DUE</span> <span class=\"num\">"@
                    + short_date_spec(d) + "</span></span>"@
            } else {
                "<span class=\"badge\"><span>截止</span><span class=\"en\">DUE</span> <span class=\"num\">"@
                    + short_date_spec(d) + "</span></span>"@
            },
            None => Seq::empty(),
        }
    }
}

fn done_mark(done: &Option<String>) -> (r: String)
    ensures
        r@ == match opt_view(*done) {
            Some(d) => if d.len() == 0 {
                Seq::empty()
            } else {
                " <span class=\"num\">"@ + short_date_spec(d) + "</span>"@
            },
            None => Seq::empty(),
        },
{
    match done {
        Some(d) => {
            if d.as_str().is_empty() {
                String::new()
            } else {
                let mut r = String::from_str(" <span class=\"num\">");
                append_str(&mut r, short_date(d.as_str()).as_str());
                append_str(&mut r, "</span>");
                r
            }
        },
        None => String::new(),
    }
}

fn due_mark(due: &Option<String>, overdue: bool) -> (r: String)
    ensures
        r@ == match opt_view(*due) {
            Some(d) => if overdue {
                "<span class=\"badge is-overdue\"><span class=\"badge-mark\"></span><span>逾期</span><span class=\"en\">DUE</span> <span class=\"num\">"@
                    + short_date_spec(d) + "</span></span>"@
            } else {
                "<span class=\"badge\"><span>截止</span><span class=\"en\">DUE</span> <span class=\"num\">"@
                    + short_date_spec(d) + "</span></span>"@
            },
            None => Seq::empty(),
        },
{
    match due {
        Some(d) => {
            let mut r = if overdue {
                String::from_str(
                    "<span class=\"badge is-overdue\"><span class=\"badge-mark\"></span><span>逾期</span><span class=\"en\">DUE</span> <span class=\"num\">",
                )
            } else {
                String::from_str(
                    "<span class=\"badge\"><span>截止</span><span class=\"en\">DUE</span> <span class=\"num\">",
                )
            };
            append_str(&mut r, short_date(d.as_str()).as_str());
            append_str(&mut r, "</span></span>");
            r
        },
        None => String::new(),
    }
}

/// The state column of a row (see `row_state_spec`).
pub fn row_state(e: &Entry, today: &str) -> (r: String)
    ensures
        r@ == row_state_spec(*e, today@),
{
    if !crate::text::eq_str(e.fm.type_.as_str(), "todo") {
        return String::new();
    }
    if is_done_entry(e) {
        let mut r = String::from_str(
            "<span class=\"badge is-done\"><span class=\"badge-mark\"></span><span>完成</span><span class=\"en\">DONE</span>",
        );
        append_str(&mut r, done_mark(&e.fm.done).as_str());
        append_str(&mut r, "</span>");
        r
    } else {
        let overdue = is_overdue(e, today);
        let mut r = String::from_str(
            "<span class=\"badge is-open\"><span class=\"badge-mark\"></span><span>进行中</span><span class=\"en\">OPEN</span></span>",
        );
        append_str(&mut r, due_mark(&e.fm.due, overdue).as_str());
        r
    }
}

pub open spec fn tag_link(root: Seq<char>, t: Seq<char>) -> Seq<char> {
    "<a class=\"tag\" href=\""@ + root + "tags.html#"@ + esc_spec(t) + "\">"@ + esc_spec(t) + "</a>"@
}

/// Links to the tag index for the first `k` tags.
pub open spec fn tag_links(root: Seq<char>, ts: Seq<Seq<char>>, k: int) -> Seq<char>
    decreases k,
{
    if k <= 0 {
        Seq::empty()
    } else {
        tag_links(root, ts, k - 1) + tag_link(root, ts[k - 1])
    }
}

/// An archive row: date, title link, folder, tag links and the state column.
pub open spec fn entry_row_spec(e: Entry, root: Seq<char>, show_dir: bool, today: Seq<char>) -> Seq<
    char,
> {
    let tags = tag_links(root, e.fm.tags.deep_view(), e.fm.tags.len() as int);
    let done = is_done_spec(e);
    "<li class=\"row"@ + (if done {
        " is-done"@
    } else {
        ""@
    }) + "\"><span class=\"row-date\">"@ + esc_spec(fmt_created_spec(e.fm.created@))
        + "</span><div class=\"row-main\"><a class=\""@ + (if done {
        "row-title is-done"@
    } else {
        "row-title"@
    }) + "\" href=\""@ + root + "pages/"@ + esc_spec(e.stem@) + ".html\">"@ + esc_spec(e.fm.title@)
        + "</a>"@ + (if show_dir {
        "<span class=\"row-kind\">"@ + esc_spec(e.dir@) + "</span>"@
    } else {
        Seq::empty()
    }) + wrap_nonempty("<span class=\"row-facets\">"@, tags, "</span>"@)
        + "</div><div class=\"row-side\">"@ + row_state_spec(e, today) + "</div></li>"@
}

fn tag_links_of(tags: &Vec<String>, root: &str) -> (r: String)
    ensures
        r@ == tag_links(root@, tags.deep_view(), tags@.len() as int),
{
    let mut out = String::new();
    let mut i: usize = 0;
    while i < tags.len()
        invariant
            i <= tags@.len(),
            out@ == tag_links(root@, tags.deep_view(), i as int),
        decreases tags@.len() - i,
    {
        let t = esc(tags[i].as_str());
        let mut it = String::from_str("<a class=\"tag\" href=\"");
        append_str(&mut it, root);
        append_str(&mut it, "tags.html#");
        append_str(&mut it, t.as_str());
        append_str(&mut it, "\">");
        append_str(&mut it, t.as_str());
        append_str(&mut it, "</a>");
        append_str(&mut out, it.as_str());
        i += 1;
    }
    out
}

/// An archive row (see `entry_row_spec`).
pub fn entry_row(e: &Entry, root: &str, show_dir: bool, today: &str) -> (r: String)
    ensures
        r@ == entry_row_spec(*e, root@, show_dir, today@),
{
    let tags = tag_links_of(&e.fm.tags, root);
    let facets = wrap_if("<span class=\"row-facets\">", tags.as_str(), "</span>");
    let kind = if show_dir {
        let mut k = String::from_str("<span class=\"row-kind\">");
        append_str(&mut k, esc(e.dir.as_str()).as_str());
        append_str(&mut k, "</span>");
        k
    } else {
        String::new()
    };
    let done = is_done_entry(e);
    let mut r = String::from_str("<li class=\"row");
    append_str(&mut r, if done {
        " is-done"
    } else {
        ""
    });
    append_str(&mut r, "\"><span class=\"row-date\">");
    append_str(&mut r, esc(fmt_created(e.fm.created.as_str()).as_str()).as_str());
    append_str(&mut r, "</span><div class=\"row-main\"><a class=\"");
    append_str(&mut r, if done {
        "row-title is-done"
    } else {
        "row-title"
    });
    append_str(&mut r, "\" href=\"");
    append_str(&mut r, root);
    append_str(&mut r, "pages/");
    append_str(&mut r, esc(e.stem.as_str()).as_str());
    append_str(&mut r, ".html\">");
    append_str(&mut r, esc(e.fm.title.as_str()).as_str());
    append_str(&mut r, "</a>");
    append_str(&mut r, kind.as_str());
    append_str(&mut r, facets.as_str());
    append_str(&mut r, "</div><div class=\"row-side\">");
    append_str(&mut r, row_state(e, today).as_str());
    append_str(&mut r, "</div></li>");
    r
}

// ------------------------------------------------------------------ pages

/// A page: its title, its rail entry (empty for detail pages), its stage
/// and its body.
pub struct Page {
    pub title: String,
    pub nav: String,
    pub stage: String,
    pub body: String,
}

impl Page {
    /// A page with an empty stage and body.
    pub fn new(title: &str, nav: &str) -> (p: Self)
        ensures
            p.title@ == title@,
            p.nav@ == nav@,
            p.stage@ == Seq::<char>::empty(),
            p.body@ == Seq::<char>::empty(),
    {
        Page { title: title.to_owned(), nav: nav.to_owned(), stage: String::new(), body: String::new() }
    }

    /// The page with its stage set.
    pub fn stage(self, s: String) -> (p: Self)
        ensures
            p.title == self.title,
            p.nav == self.nav,
            p.stage == s,
            p.body == self.body,
    {
        let mut p = self;
        p.stage = s;
        p
    }

    /// The page with its body set.
    pub fn body(self, b: String) -> (p: Self)
        ensures
            p.title == self.title,
            p.nav == self.nav,
            p.stage == self.stage,
            p.body == b,
    {
        let mut p = self;
        p.body = b;
        p
    }
}

/// The whole HTML document of a page: head, top bar with the entry count,
/// rail, the page's stage and body, and the status bar with the version and
/// the build time.
#[verifier::opaque]
pub open spec fn render_spec(
    title: Seq<char>,
    nav: Seq<char>,
    stage: Seq<char>,
    body: Seq<char>,
    built: Seq<char>,
    count_line: Seq<char>,
    version: Seq<char>,
) -> Seq<char> {
    let root = root_of_spec(nav);
    "<!DOCTYPE html>\n<html lang=\"zh\" data-ark-theme=\"exa\" data-ark-depth=\"moderate\" data-ark-appearance=\"auto\" data-ark-layout=\"list\">\n<head>\n<meta charset=\"utf-8\">\n<script>"@
        + BOOT@
        + "</script>\n<meta name=\"viewport\" content=\"width=device-width,initial-scale=1\">\n<title>"@
        + esc_spec(title)
        + " · MindCache</title>\n<meta name=\"color-scheme\" content=\"light dark\">\n<meta name=\"theme-color\" content=\"#f3f2ef\" media=\"(prefers-color-scheme: light)\">\n<meta name=\"theme-color\" content=\"#080914\" media=\"(prefers-color-scheme: dark)\">\n<link rel=\"icon\" href=\"data:,\">\n<link rel=\"stylesheet\" href=\""@
        + root
        + "style.css\">\n</head>\n<body>\n<a class=\"skip\" href=\"#main\">跳到主要内容 / SKIP TO CONTENT</a>\n<div class=\"shell\">\n<header class=\"topbar\"><p class=\"brand\"><b>MindCache</b><span>个人档案库</span><span class=\"en\">/ PERSONAL ARCHIVE</span></p><div class=\"topbar-tools\"><span class=\"hint\">"@
        + count_line
        + "</span><button class=\"act\" id=\"layoutbtn\" type=\"button\">视图 VIEW · LIST</button><button class=\"act\" id=\"appearancebtn\" type=\"button\">外观 THEME · AUTO</button></div></header>\n"@
        + rail_spec(nav, root) + "\n<main id=\"main\" class=\"field\">\n"@ + stage + "\n"@ + body
        + "\n</main>\n<footer class=\"statusbar\"><span>MindCache <b>v"@ + version
        + "</b></span><span><span class=\"en\">LAST BUILD</span> <span>上次构建</span> <b>"@ + built
        + "</b></span><span><span>契约</span> <span class=\"en\">CONTRACT</span> <b>EXA / MODERATE</b></span></footer>\n</div>\n<script>"@
        + JS@ + "</script>\n</body>\n</html>\n"@
}

/// The whole HTML document of a page; `version` is the program's version.
pub fn render(p: &Page, built: &str, count_line: &str, version: &str) -> (r: String)
    ensures
        r@ == render_spec(p.title@, p.nav@, p.stage@, p.body@, built@, count_line@, version@),
{
    proof {
        reveal(render_spec);
    }
    let root = root_of(p.nav.as_str());
    let mut r = String::from_str(
        "<!DOCTYPE html>\n<html lang=\"zh\" data-ark-theme=\"exa\" data-ark-depth=\"moderate\" data-ark-appearance=\"auto\" data-ark-layout=\"list\">\n<head>\n<meta charset=\"utf-8\">\n<script>",
    );
    append_str(&mut r, BOOT);
    append_str(
        &mut r,
        "</script>\n<meta name=\"viewport\" content=\"width=device-width,initial-scale=1\">\n<title>",
    );
    append_str(&mut r, esc(p.title.as_str()).as_str());
    append_str(
        &mut r,
        " · MindCache</title>\n<meta name=\"color-scheme\" content=\"light dark\">\n<meta name=\"theme-color\" content=\"#f3f2ef\" media=\"(prefers-color-scheme: light)\">\n<meta name=\"theme-color\" content=\"#080914\" media=\"(prefers-color-scheme: dark)\">\n<link rel=\"icon\" href=\"data:,\">\n<link rel=\"stylesheet\" href=\"",
    );
    append_str(&mut r, root);
    append_str(
        &mut r,
        "style.css\">\n</head>\n<body>\n<a class=\"skip\" href=\"#main\">跳到主要内容 / SKIP TO CONTENT</a>\n<div class=\"shell\">\n<header class=\"topbar\"><p class=\"brand\"><b>MindCache</b><span>个人档案库</span><span class=\"en\">/ PERSONAL ARCHIVE</span></p><div class=\"topbar-tools\"><span class=\"hint\">",
    );
    append_str(&mut r, count_line);
    append_str(
        &mut r,
        "</span><button class=\"act\" id=\"layoutbtn\" type=\"button\">视图 VIEW · LIST</button><button class=\"act\" id=\"appearancebtn\" type=\"button\">外观 THEME · AUTO</button></div></header>\n",
    );
    append_str(&mut r, rail(p.nav.as_str(), root).as_str());
    append_str(&mut r, "\n<main id=\"main\" class=\"field\">\n");
    append_str(&mut r, p.stage.as_str());
    append_str(&mut r, "\n");
    append_str(&mut r, p.body.as_str());
    append_str(&mut r, "\n</main>\n<footer class=\"statusbar\"><span>MindCache <b>v");
    append_str(&mut r, version);
    append_str(
        &mut r,
        "</b></span><span><span class=\"en\">LAST BUILD</span> <span>上次构建</span> <b>",
    );
    append_str(&mut r, built);
    append_str(
        &mut r,
        "</b></span><span><span>契约</span> <span class=\"en\">CONTRACT</span> <b>EXA / MODERATE</b></span></footer>\n</div>\n<script>",
    );
    append_str(&mut r, JS);
    append_str(&mut r, "</script>\n</body>\n</html>\n");
    r
}

} // verus!
