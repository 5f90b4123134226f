//! The state of the program: what is known of sing-box and its traffic, the log,
//! the nodes, and the settings of the system.
use vstd::prelude::*;

use crate::config_gen::{
    base_template, config_text, configured, generate_config, link_view, reads_back, settings_of,
    text_result_view, vmess_in_lower_case, Settings,
};
use crate::json::{parsed_json, JsonView};
use crate::nodes::{
    empty_store, law_added_is_selected, loaded, mode_of, node_name, nodes_view, NodeView,
    NodesStore, SavedNodes, StoreView,
};
use crate::ports::{api_port_of, document_in, loaded_port};
use crate::text::{joined, opt_view, owned_view, same_text, texts};
use crate::traffic::{load_traffic_file, totals_in};
use crate::watchdog::Watchdog;

verus! {

/// What is known of sing-box. Speeds are in bytes per second.
#[derive(Debug, Clone, Copy, PartialEq, Eq)]
pub struct StatusData {
    pub running: bool,
    pub up_speed: u64,
    pub down_speed: u64,
    pub up_total: u64,
    pub down_total: u64,
    pub conns: usize,
}

/// The state of the program.
#[derive(Debug, PartialEq, Eq)]
pub struct AppState {
    /// Whether the program runs with administrator rights.
    pub elevated: bool,
    pub status: StatusData,
    /// The last lines of the log.
    pub logs: Vec<String>,
    /// How many lines were ever logged, so that a change can be seen.
    pub log_seq: u64,
    pub nodes: NodesStore,
    pub autostart: bool,
    pub system_proxy: bool,
    /// The last latency of the selected node, in milliseconds: 0 if none was
    /// measured, `u64::MAX` if it could not be reached.
    pub latency: u64,
    /// The port of the mixed inbound.
    pub proxy_port: u16,
    /// Whether the traffic totals changed since they were last saved.
    pub traffic_dirty: bool,
    pub watchdog: Watchdog,
}

/// The state of the program, as mathematical values.
#[verifier::ext_equal]
pub struct AppView {
    pub elevated: bool,
    pub status: StatusData,
    pub logs: Seq<Seq<char>>,
    pub log_seq: u64,
    pub nodes: StoreView,
    pub autostart: bool,
    pub system_proxy: bool,
    pub latency: u64,
    pub proxy_port: u16,
    pub traffic_dirty: bool,
    pub watchdog: Watchdog,
}

impl View for AppState {
    type V = AppView;

    open spec fn view(&self) -> AppView {
        AppView {
            elevated: self.elevated,
            status: self.status,
            logs: texts(self.logs@),
            log_seq: self.log_seq,
            nodes: self.nodes@,
            autostart: self.autostart,
            system_proxy: self.system_proxy,
            latency: self.latency,
            proxy_port: self.proxy_port,
            traffic_dirty: self.traffic_dirty,
            watchdog: self.watchdog,
        }
    }
}

// ---- The first state ----

/// What the last run and the system left: the texts of files, where they are there,
/// and what the registry says.
#[derive(Debug, PartialEq, Eq)]
pub struct Startup {
    pub port_file: Option<String>,
    pub config_file: Option<String>,
    pub traffic_file: Option<String>,
    pub nodes: Option<SavedNodes>,
    pub autostart: bool,
    pub system_proxy: bool,
    pub elevated: bool,
}

/// The text of a file, where it is there.
fn file_text(file: &Option<String>) -> (r: Option<&str>)
    ensures
        opt_view(r) == owned_view(*file),
{
    match file {
        Some(t) => Some(t.as_str()),
        None => None,
    }
}

/// The state at the start of the program.
pub open spec fn first_state(s: Startup) -> AppView {
    AppView {
        elevated: s.elevated,
        status: StatusData {
            running: false,
            up_speed: 0,
            down_speed: 0,
            up_total: totals_in(document_in(owned_view(s.traffic_file))).0,
            down_total: totals_in(document_in(owned_view(s.traffic_file))).1,
            conns: 0,
        },
        logs: Seq::empty(),
        log_seq: 0,
        nodes: match s.nodes {
            Some(saved) => loaded(saved),
            None => empty_store(),
        },
        autostart: s.autostart,
        system_proxy: s.system_proxy,
        latency: 0,
        proxy_port: loaded_port(owned_view(s.port_file), owned_view(s.config_file)),
        traffic_dirty: false,
        watchdog: Watchdog::fresh(),
    }
}

impl AppState {
    /// The state at the start of the program.
    pub fn new(startup: Startup) -> (r: AppState)
        ensures
            r@ == first_state(startup),
            r@.nodes.valid(),
            r@.watchdog.valid(),
    {
        let proxy_port = AppState::load_port(
            file_text(&startup.port_file),
            file_text(&startup.config_file),
        );
        let (up_total, down_total) = load_traffic_file(file_text(&startup.traffic_file));
        let r = AppState {
            elevated: startup.elevated,
            status: StatusData {
                running: false,
                up_speed: 0,
                down_speed: 0,
                up_total,
                down_total,
                conns: 0,
            },
            logs: Vec::new(),
            log_seq: 0,
            nodes: NodesStore::load(startup.nodes),
            autostart: startup.autostart,
            system_proxy: startup.system_proxy,
            latency: 0,
            proxy_port,
            traffic_dirty: false,
            watchdog: Watchdog {
                failures: 0,
                stable_count: 0,
                retries: 0,
                suspended_until: 0,
                restarting: false,
            },
        };
        assert(texts(r.logs@) =~= Seq::empty());
        r
    }
}

// ---- Starting and stopping ----

/// What can be seen of sing-box's process.
#[derive(Debug, Clone, Copy, PartialEq, Eq)]
pub enum Process {
    /// There is none.
    Absent,
    /// There is one with this number that is not known to have ended.
    Alive(u32),
    /// There is one with this number that has ended.
    Ended(u32),
}

/// The state once sing-box was started.
pub open spec fn started(s: AppView) -> AppView {
    AppView {
        status: StatusData { running: true, ..s.status },
        watchdog: Watchdog::fresh(),
        ..s
    }
}

/// The state once sing-box was stopped.
pub open spec fn stopped(s: AppView) -> AppView {
    AppView {
        status: StatusData { running: false, up_speed: 0, down_speed: 0, ..s.status },
        ..s
    }
}

/// Why sing-box cannot be started, if it cannot.
pub open spec fn start_obstacle(
    process: Process,
    binary_exists: bool,
    config_exists: bool,
    data_dir: Seq<char>,
) -> Option<Seq<char>> {
    if process is Alive {
        Some("sing-box 已在运行中"@)
    } else if !binary_exists {
        Some("未找到 "@ + data_dir + "\\sing-box.exe，请把它放进 data 目录"@)
    } else if !config_exists {
        Some("尚未生成配置，请先在控制台粘贴节点链接并点「应用配置」"@)
    } else {
        None
    }
}

impl AppState {
    /// Whether sing-box runs.
    pub fn is_running(process: Process) -> (r: bool)
        ensures
            r == (process is Alive),
    {
        match process {
            Process::Alive(_) => true,
            _ => false,
        }
    }

    /// Whether the process with a number, started a moment ago, is gone.
    pub fn has_died(process: Process, pid: u32) -> (r: bool)
        ensures
            r == (process != Process::Alive(pid)),
    {
        match process {
            Process::Alive(p) => p != pid,
            _ => true,
        }
    }

    /// Starts sing-box by calling `spawn`, unless something speaks against it:
    /// `spawn` is not called then.
    pub fn start_proxy<F: FnOnce() -> Result<(), String>>(
        &mut self,
        process: Process,
        binary_exists: bool,
        config_exists: bool,
        data_dir: &str,
        spawn: F,
    ) -> (r: Result<(), String>)
        requires
            start_obstacle(process, binary_exists, config_exists, data_dir@) is None
                ==> call_requires(spawn, ()),
        ensures
            match start_obstacle(process, binary_exists, config_exists, data_dir@) {
                Some(why) => (r matches Err(e) && e@ == why) && final(self)@ == old(self)@,
                None => match r {
                    Ok(_) => call_ensures(spawn, (), Ok(())) && final(self)@ == started(old(self)@),
                    Err(e) => final(self)@ == old(self)@ && exists|why: String| #[trigger]
                        call_ensures(spawn, (), Err(why)) && e@ == "启动 sing-box 失败: "@ + why@,
                },
            },
    {
        if AppState::is_running(process) {
            return Err("sing-box 已在运行中".to_owned());
        }
        if !binary_exists {
            let text = joined("未找到 ", data_dir);
            return Err(joined(text.as_str(), "\\sing-box.exe，请把它放进 data 目录"));
        }
        if !config_exists {
            return Err("尚未生成配置，请先在控制台粘贴节点链接并点「应用配置」".to_owned());
        }
        match spawn() {
            Ok(done) => {
                assert(done == ());
                self.status.running = true;
                self.wd_reset();
                Ok(())
            },
            Err(why) => Err(joined("启动 sing-box 失败: ", why.as_str())),
        }
    }

    /// Notes that sing-box was stopped.
    pub fn stop_proxy(&mut self)
        ensures
            final(self)@ == stopped(old(self)@),
    {
        self.status.running = false;
        self.status.up_speed = 0;
        self.status.down_speed = 0;
    }
}

// ---- Configurations ----

/// The text of the configuration for a link, under the settings of the state.
pub open spec fn config_for(s: AppView, link: Seq<char>) -> Result<Seq<char>, Seq<char>> {
    config_text(
        base_template(),
        link_view(link),
        settings_for(s),
    )
}

/// The settings of a configuration, as the state has them.
pub open spec fn settings_for(s: AppView) -> Settings {
    settings_of(
        s.nodes.use_tun,
        s.proxy_port,
        api_port_of(s.proxy_port),
        mode_of(s.nodes.route_mode),
    )
}

/// The text of the configuration for a link, if there is one, reads back as the
/// configuration that was meant.
pub open spec fn config_reads_back(s: AppView, link: Seq<char>) -> bool {
    reads_back(config_for(s, link), base_template(), link_view(link), settings_for(s))
}

/// `r` is how making the configuration for a link and handing it to `write` went:
/// the text is what `write` was called with, and it reads back as what was meant;
/// where there is none, `r` says why.
pub open spec fn config_written<F: FnOnce(&str) -> Result<(), String>>(
    s: AppView,
    link: Seq<char>,
    write: F,
    r: Result<(), String>,
) -> bool {
    match config_for(s, link) {
        Ok(text) => config_reads_back(s, link) && exists|t: &str|
            t@ == text && #[trigger] call_ensures(write, (t,), r),
        Err(e) => r matches Err(m) && m@ == e,
    }
}

/// `write` takes the text of the configuration for a link. It need take no other, so
/// it is handed no other, and nothing where the link is refused.
pub open spec fn takes_config<F: FnOnce(&str) -> Result<(), String>>(
    s: AppView,
    link: Seq<char>,
    write: F,
) -> bool {
    forall|t: &str|
        config_for(s, link) == Ok::<Seq<char>, Seq<char>>(t@) ==> #[trigger] call_requires(
            write,
            (t,),
        )
}

/// `write` takes the text of the configuration for the selected node, if there is
/// one, and need take no other.
pub open spec fn takes_selected<F: FnOnce(&str) -> Result<(), String>>(
    s: AppView,
    write: F,
) -> bool {
    s.nodes.selected() matches Some(n) ==> takes_config(s, n.link, write)
}

/// The name of the selected node, empty where there is none.
pub open spec fn selected_name(s: AppView) -> Seq<char> {
    match s.nodes.selected() {
        Some(n) => n.name,
        None => ""@,
    }
}

/// The state with the virtual network card on or off.
pub open spec fn with_tun(s: AppView, use_tun: bool) -> AppView {
    AppView { nodes: StoreView { use_tun, ..s.nodes }, ..s }
}

/// The state with a route mode.
pub open spec fn with_mode(s: AppView, mode: Seq<char>) -> AppView {
    AppView { nodes: StoreView { route_mode: mode_of(mode), ..s.nodes }, ..s }
}

/// The link of the selected node can be read without fail.
pub open spec fn selected_link_fits(s: AppView) -> bool {
    s.nodes.selected() matches Some(n) ==> vmess_in_lower_case(n.link)
}

/// `r` is how making the configuration for the selected node and handing it to
/// `write` went.
pub open spec fn config_regenerated<F: FnOnce(&str) -> Result<(), String>>(
    s: AppView,
    write: F,
    r: Result<(), String>,
) -> bool {
    match s.nodes.selected() {
        Some(n) => config_written(s, n.link, write, r),
        None => r matches Err(m) && m@ == "当前没有节点，请先导入链接"@,
    }
}

/// What is told after a change of the route mode.
pub open spec fn mode_message(mode: Seq<char>) -> Seq<char> {
    "已切换为"@ + (if mode == "global"@ {
        "全局模式（所有流量走代理）"@
    } else {
        "规则模式（国内直连）"@
    })
}

impl AppState {
    /// The text of the configuration for a link, under the settings of the state.
    pub fn config_for_link(&self, link: &str) -> (r: Result<String, String>)
        requires
            vmess_in_lower_case(link@),
        ensures
            text_result_view(r) == config_for(self@, link@),
            config_reads_back(self@, link@),
    {
        generate_config(
            link,
            self.nodes.use_tun(),
            self.proxy_port,
            self.api_port(),
            self.nodes.route_mode(),
        )
    }

    /// Makes the configuration for a link, hands it to `write` and gives it back.
    pub fn write_config<F: FnOnce(&str) -> Result<(), String>>(
        &self,
        link: &str,
        write: F,
    ) -> (r: Result<String, String>)
        requires
            vmess_in_lower_case(link@),
            takes_config(self@, link@, write),
        ensures
            match r {
                Ok(text) => config_for(self@, link@) == Ok::<Seq<char>, Seq<char>>(text@)
                    && config_written(self@, link@, write, Ok(())),
                Err(e) => config_written(self@, link@, write, Err(e)),
            },
    {
        match self.config_for_link(link) {
            Ok(text) => match write(text.as_str()) {
                Ok(done) => {
                    assert(done == ());
                    Ok(text)
                },
                Err(e) => Err(e),
            },
            Err(e) => Err(e),
        }
    }

    /// Makes the configuration for the selected node, hands it to `write` and gives
    /// it back.
    pub fn regenerate_config<F: FnOnce(&str) -> Result<(), String>>(
        &self,
        write: F,
    ) -> (r: Result<String, String>)
        requires
            selected_link_fits(self@),
            takes_selected(self@, write),
        ensures
            match r {
                Ok(text) => {
                    &&& self@.nodes.selected() matches Some(n) && config_for(self@, n.link) == Ok::<
                        Seq<char>,
                        Seq<char>,
                    >(text@)
                    &&& config_regenerated(self@, write, Ok(()))
                },
                Err(e) => config_regenerated(self@, write, Err(e)),
            },
    {
        match self.nodes.current_node() {
            Some(n) => self.write_config(n.link.as_str(), write),
            None => Err("当前没有节点，请先导入链接".to_owned()),
        }
    }

    /// Sets the route mode. If there is a configuration it is made anew and handed
    /// to `write`; else nothing is.
    pub fn set_route_mode<F: FnOnce(&str) -> Result<(), String>>(
        &mut self,
        mode: &str,
        config_exists: bool,
        write: F,
    ) -> (r: Result<String, String>)
        requires
            config_exists ==> selected_link_fits(old(self)@),
            config_exists ==> takes_selected(with_mode(old(self)@, mode@), write),
        ensures
            final(self)@ == with_mode(old(self)@, mode@),
            match r {
                Ok(m) => m@ == mode_message(mode@) && (config_exists ==> config_regenerated(
                    with_mode(old(self)@, mode@),
                    write,
                    Ok(()),
                )),
                Err(e) => config_exists && config_regenerated(
                    with_mode(old(self)@, mode@),
                    write,
                    Err(e),
                ),
            },
    {
        self.nodes.set_route_mode(mode);
        if config_exists {
            match self.regenerate_config(write) {
                Ok(_) => {},
                Err(e) => {
                    return Err(e);
                },
            }
        }
        Ok(
            joined(
                "已切换为",
                if same_text(mode, "global") {
                    "全局模式（所有流量走代理）"
                } else {
                    "规则模式（国内直连）"
                },
            ),
        )
    }

    /// Turns the virtual network card on or off. If that is a change, the
    /// configuration for the selected node is made anew and handed to `write`.
    /// Gives the name of the selected node, and whether there was a change.
    pub fn set_use_tun<F: FnOnce(&str) -> Result<(), String>>(
        &mut self,
        use_tun: bool,
        write: F,
    ) -> (r: Result<(String, bool), String>)
        requires
            old(self)@.nodes.use_tun != use_tun ==> selected_link_fits(old(self)@),
            old(self)@.nodes.use_tun != use_tun ==> takes_selected(
                with_tun(old(self)@, use_tun),
                write,
            ),
        ensures
            final(self)@ == with_tun(old(self)@, use_tun),
            match r {
                Ok((name, changed)) => {
                    &&& name@ == selected_name(old(self)@)
                    &&& changed == (old(self)@.nodes.use_tun != use_tun)
                    &&& changed ==> old(self)@.nodes.selected() is Some && config_written(
                        with_tun(old(self)@, use_tun),
                        old(self)@.nodes.selected()->0.link,
                        write,
                        Ok(()),
                    )
                },
                Err(e) => old(self)@.nodes.use_tun != use_tun && match old(
                    self,
                )@.nodes.selected() {
                    Some(n) => config_written(
                        with_tun(old(self)@, use_tun),
                        n.link,
                        write,
                        Err(e),
                    ),
                    None => e@ == "当前没有节点"@,
                },
            },
    {
        let name = match self.nodes.current_node() {
            Some(n) => n.name.clone(),
            None => "".to_owned(),
        };
        if self.nodes.use_tun() == use_tun {
            return Ok((name, false));
        }
        self.nodes.set_use_tun(use_tun);
        let link = match self.nodes.current_node() {
            Some(n) => n.link.clone(),
            None => {
                return Err("当前没有节点".to_owned());
            },
        };
        match self.write_config(link.as_str(), write) {
            Ok(_) => Ok((name, true)),
            Err(e) => Err(e),
        }
    }

    /// Turns the virtual network card on or off if there is a selected node, and
    /// tells whether a new configuration was written.
    pub fn apply_mode<F: FnOnce(&str) -> Result<(), String>>(&mut self, tun: bool, write: F) -> (r:
        bool)
        requires
            old(self)@.nodes.use_tun != tun ==> selected_link_fits(old(self)@),
            old(self)@.nodes.use_tun != tun ==> takes_selected(with_tun(old(self)@, tun), write),
        ensures
            match old(self)@.nodes.selected() {
                Some(n) => {
                    &&& final(self)@ == with_tun(old(self)@, tun)
                    &&& r ==> old(self)@.nodes.use_tun != tun && config_written(
                        with_tun(old(self)@, tun),
                        n.link,
                        write,
                        Ok(()),
                    )
                    &&& !r ==> old(self)@.nodes.use_tun == tun || exists|e: String| #[trigger]
                        config_written(with_tun(old(self)@, tun), n.link, write, Err(e))
                },
                None => !r && final(self)@ == old(self)@,
            },
    {
        if self.nodes.current_node().is_none() {
            return false;
        }
        match self.set_use_tun(tun, write) {
            Ok((_, changed)) => changed,
            Err(_) => false,
        }
    }
}

// ---- Nodes ----

/// The state with other nodes.
pub open spec fn with_nodes(s: AppView, nodes: StoreView) -> AppView {
    AppView { nodes, ..s }
}

/// `r` is how adding a node for a link to the state went, and `after` the state
/// that it left: the node is there and selected once its configuration was written,
/// and nothing has changed where it was not.
pub open spec fn node_added<F: FnOnce(&str) -> Result<(), String>>(
    s: AppView,
    link: Seq<char>,
    write: F,
    r: Result<String, String>,
    after: AppView,
) -> bool {
    match r {
        Ok(m) => {
            &&& config_written(s, link, write, Ok(()))
            &&& after == with_nodes(s, s.nodes.added(link))
            &&& m@ == "已添加节点「"@ + selected_name(after) + "」并生成配置"@
        },
        Err(e) => config_written(s, link, write, Err(e)) && after == s,
    }
}

impl AppState {
    /// Adds a node for a link and selects it, once its configuration was made and
    /// `write` took it.
    pub fn add_node<F: FnOnce(&str) -> Result<(), String>>(
        &mut self,
        link: &str,
        write: F,
    ) -> (r: Result<String, String>)
        requires
            vmess_in_lower_case(link@),
            old(self).nodes.nodes.len() < usize::MAX,
            takes_config(old(self)@, link@, write),
        ensures
            node_added(old(self)@, link@, write, r, final(self)@),
    {
        match self.write_config(link, write) {
            Ok(_) => {},
            Err(e) => {
                return Err(e);
            },
        }
        self.nodes.add(link);
        let name = match self.nodes.current_node() {
            Some(n) => n.name.clone(),
            None => "".to_owned(),
        };
        let text = joined("已添加节点「", name.as_str());
        Ok(joined(text.as_str(), "」并生成配置"))
    }

    /// Selects the node at an index, once its configuration was made and `write`
    /// took it.
    pub fn switch_node<F: FnOnce(&str) -> Result<(), String>>(
        &mut self,
        index: usize,
        write: F,
    ) -> (r: Result<String, String>)
        requires
            index < old(self)@.nodes.nodes.len() ==> vmess_in_lower_case(
                old(self)@.nodes.nodes[index as int].link,
            ),
            index < old(self)@.nodes.nodes.len() ==> takes_config(
                old(self)@,
                old(self)@.nodes.nodes[index as int].link,
                write,
            ),
        ensures
            if index < old(self)@.nodes.nodes.len() {
                let node = old(self)@.nodes.nodes[index as int];
                match r {
                    Ok(m) => {
                        &&& config_written(old(self)@, node.link, write, Ok(()))
                        &&& final(self)@ == with_nodes(
                            old(self)@,
                            StoreView { current: index as int, ..old(self)@.nodes },
                        )
                        &&& m@ == "已切换到「"@ + node.name + "」"@
                    },
                    Err(e) => config_written(old(self)@, node.link, write, Err(e)) && final(self)@
                        == old(self)@,
                }
            } else {
                (r matches Err(e) && e@ == "节点索引不存在"@) && final(self)@ == old(self)@
            },
            r is Ok ==> final(self)@ == with_nodes(
                old(self)@,
                old(self)@.nodes.selecting(index as int),
            ),
    {
        if index >= self.nodes.nodes.len() {
            return Err("节点索引不存在".to_owned());
        }
        let name = self.nodes.nodes[index].name.clone();
        let link = self.nodes.nodes[index].link.clone();
        match self.write_config(link.as_str(), write) {
            Ok(_) => {},
            Err(e) => {
                return Err(e);
            },
        }
        let _ = self.nodes.set_current(index);
        let text = joined("已切换到「", name.as_str());
        Ok(joined(text.as_str(), "」"))
    }

    /// Takes out the node at an index.
    pub fn delete_node(&mut self, index: usize) -> (r: Result<String, String>)
        ensures
            match r {
                Ok(m) => {
                    &&& index < old(self)@.nodes.nodes.len()
                    &&& final(self)@ == with_nodes(
                        old(self)@,
                        old(self)@.nodes.removed(index as int),
                    )
                    &&& m@ == "已删除「"@ + old(self)@.nodes.nodes[index as int].name + "」"@
                },
                Err(e) => {
                    &&& index >= old(self)@.nodes.nodes.len()
                    &&& final(self)@ == old(self)@
                    &&& e@ == "删除失败：索引越界"@
                },
            },
    {
        if index >= self.nodes.nodes.len() {
            return Err("删除失败：索引越界".to_owned());
        }
        let name = self.nodes.nodes[index].name.clone();
        let _ = self.nodes.remove(index);
        let text = joined("已删除「", name.as_str());
        Ok(joined(text.as_str(), "」"))
    }

    /// How many nodes there are.
    pub fn node_count(&self) -> (r: usize)
        ensures
            r == self@.nodes.nodes.len(),
    {
        self.nodes.nodes.len()
    }

    /// The link of the node at an index.
    pub fn node_link(&self, index: usize) -> (r: Option<String>)
        ensures
            match r {
                Some(l) => index < self@.nodes.nodes.len() && l@
                    == self@.nodes.nodes[index as int].link,
                None => index >= self@.nodes.nodes.len(),
            },
    {
        if index < self.nodes.nodes.len() {
            Some(self.nodes.nodes[index].link.clone())
        } else {
            None
        }
    }

    /// Notes the latency of the node at an index, if there is one.
    pub fn set_node_latency(&mut self, index: usize, lat: u64)
        ensures
            final(self)@ == (if index < old(self)@.nodes.nodes.len() {
                with_nodes(
                    old(self)@,
                    StoreView {
                        nodes: old(self)@.nodes.nodes.update(
                            index as int,
                            NodeView {
                                latency: lat,
                                ..old(self)@.nodes.nodes[index as int]
                            },
                        ),
                        ..old(self)@.nodes
                    },
                )
            } else {
                old(self)@
            }),
            index < old(self)@.nodes.nodes.len() ==> final(self)@ == with_nodes(
                old(self)@,
                old(self)@.nodes.noting(index as int, lat),
            ),
    {
        if index < self.nodes.nodes.len() {
            let ghost before = self.nodes.nodes@;
            let node = &mut self.nodes.nodes[index];
            node.latency = lat;
            assert(nodes_view(self.nodes.nodes@) =~= nodes_view(
                before,
            ).update(
                index as int,
                NodeView {
                    latency: lat,
                    ..nodes_view(before)[index as int]
                },
            ));
        }
    }
}

// ---- Laws ----

/// The configuration that is written when a node is selected is the one that is
/// made for the selected node afterwards.
pub proof fn law_switched_config_is_current(s: AppView, index: int)
    requires
        0 <= index < s.nodes.nodes.len(),
    ensures
        ({
            let after = with_nodes(s, StoreView { current: index, ..s.nodes });
            &&& after.nodes.selected() == Some(s.nodes.nodes[index])
            &&& config_for(after, after.nodes.selected()->0.link) == config_for(
                s,
                s.nodes.nodes[index].link,
            )
        }),
{
}

/// The configuration that is written when a node is added is the one that is made
/// for the selected node afterwards.
pub proof fn law_added_config_is_current(s: AppView, link: Seq<char>)
    ensures
        ({
            let after = with_nodes(s, s.nodes.added(link));
            &&& after.nodes.selected() is Some
            &&& config_for(after, after.nodes.selected()->0.link) == config_for(s, link)
        }),
{
}

/// A link that is refused is answered with its own error, whatever the settings and
/// whatever `write` does, and nothing is written: even a `write` that may never be
/// called will do. A link that is taken has a configuration; what is written is its
/// text, which reads back as that, and the answer is that of `write`.
pub proof fn law_config_answer<F: FnOnce(&str) -> Result<(), String>>(
    s: AppView,
    link: Seq<char>,
    write: F,
    r: Result<(), String>,
)
    requires
        base_template() is Ok,
        config_written(s, link, write, r),
    ensures
        link_view(link) matches Err(e) ==> {
            &&& config_for(s, link) == Err::<Seq<char>, Seq<char>>(e)
            &&& r matches Err(m) && m@ == e
            &&& takes_config(s, link, write)
        },
        config_for(s, link) is Ok == link_view(link) is Ok,
        config_for(s, link) matches Ok(text) ==> {
            &&& parsed_json(text) == Ok::<JsonView, Seq<char>>(
                configured(base_template()->Ok_0, link_view(link)->Ok_0, settings_for(s)),
            )
            &&& exists|t: &str| t@ == text && #[trigger] call_ensures(write, (t,), r)
        },
{
}

/// Adding a node fails as its configuration does, and changes nothing then. Once
/// `write` takes the configuration, the node is the last one and selected, and the
/// answer names it.
pub proof fn law_node_added<F: FnOnce(&str) -> Result<(), String>>(
    s: AppView,
    link: Seq<char>,
    write: F,
    r: Result<String, String>,
    after: AppView,
)
    requires
        node_added(s, link, write, r, after),
    ensures
        config_for(s, link) matches Err(e) ==> (r matches Err(m) && m@ == e) && after == s,
        r is Err ==> after == s,
        config_for(s, link) is Ok && (forall|t: &str, w: Result<(), String>| #[trigger]
            call_ensures(write, (t,), w) ==> w is Ok) ==> {
            &&& r matches Ok(m) && m@ == "已添加节点「"@ + node_name(link, s.nodes.nodes.len() + 1)
                + "」并生成配置"@
            &&& after.nodes.nodes.drop_last() == s.nodes.nodes
            &&& after.nodes.selected() matches Some(n) && n.link == link
            &&& after == with_nodes(s, s.nodes.added(link))
        },
{
    law_added_is_selected(s.nodes, link);
}

/// Starting and stopping touch neither the nodes nor the traffic totals, and what
/// was started is stopped.
pub proof fn law_start_and_stop(s: AppView)
    ensures
        started(s).status.running,
        !stopped(started(s)).status.running,
        stopped(started(s)).nodes == s.nodes,
        stopped(started(s)).logs == s.logs,
        stopped(started(s)).status.up_total == s.status.up_total,
        stopped(started(s)).status.down_total == s.status.down_total,
        stopped(stopped(s)) == stopped(s),
{
}

/// A configuration that is made anew is that of the selected node; without one there is
/// an error of its own, and nothing is written.
pub proof fn law_regenerated<F: FnOnce(&str) -> Result<(), String>>(
    s: AppView,
    write: F,
    r: Result<(), String>,
)
    requires
        config_regenerated(s, write, r),
    ensures
        0 <= s.nodes.current < s.nodes.nodes.len() ==> config_written(
            s,
            s.nodes.nodes[s.nodes.current].link,
            write,
            r,
        ),
        !(0 <= s.nodes.current < s.nodes.nodes.len()) ==> (r matches Err(m) && m@
            == "当前没有节点，请先导入链接"@) && takes_selected(s, write),
{
}

/// The answer to a change of the route mode names the mode that is set: the global one
/// for `global`, and for anything else that by rules.
pub proof fn law_mode_answers(mode: Seq<char>)
    ensures
        mode == "global"@ ==> mode_message(mode) == "已切换为"@ + "全局模式（所有流量走代理）"@,
        mode != "global"@ ==> mode_message(mode) == "已切换为"@ + "规则模式（国内直连）"@,
{
}

/// sing-box runs exactly while its process is alive, and the process that was started
/// has died unless it is that very one that is alive.
pub proof fn law_processes(process: Process, pid: u32, running: bool, died: bool)
    requires
        call_ensures(AppState::is_running, (process,), running),
        call_ensures(AppState::has_died, (process, pid), died),
    ensures
        running <==> process is Alive,
        !died <==> process == Process::Alive(pid),
        !died ==> running,
{
}

/// The links and the number of the nodes are those of the list.
pub proof fn law_links_of_nodes(s: AppState, index: usize, count: usize, link: Option<String>)
    requires
        call_ensures(AppState::node_count, (&s,), count),
        call_ensures(AppState::node_link, (&s, index), link),
    ensures
        count == s.nodes.nodes@.len(),
        link is Some <==> index < count,
        link matches Some(l) ==> l@ == s.nodes.nodes@[index as int].link@,
{
}

} // verus!
