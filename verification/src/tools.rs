//! The tools of the platform that AI employees can be allowed to use.

use vstd::prelude::*;

use crate::text;

verus! {

/// A tool of the platform.
pub struct PlatformTool {
    pub id: &'static str,
    pub title: &'static str,
    pub description: &'static str,
    pub category: &'static str,
    pub group: &'static str,
    pub risk_level: &'static str,
}

/// What a `PlatformTool` holds.
#[verifier::ext_equal]
pub struct PlatformToolView {
    pub id: Seq<char>,
    pub title: Seq<char>,
    pub description: Seq<char>,
    pub category: Seq<char>,
    pub group: Seq<char>,
    pub risk_level: Seq<char>,
}

impl View for PlatformTool {
    type V = PlatformToolView;

    open spec fn view(&self) -> PlatformToolView {
        PlatformToolView {
            id: self.id@,
            title: self.title@,
            description: self.description@,
            category: self.category@,
            group: self.group@,
            risk_level: self.risk_level@,
        }
    }
}

/// Whether a tool for applications changes them.
pub open spec fn builds_apps(id: Seq<char>) -> bool {
    id == "create_app"@ || id == "update_app"@ || id == "delete_app"@
}

/// Whether a tool for applications reads them.
pub open spec fn reads_apps(id: Seq<char>) -> bool {
    id == "list_apps"@ || id == "get_application_business_context"@
}

/// Whether a tool for forms reads them.
pub open spec fn reads_forms(id: Seq<char>) -> bool {
    ||| id == "list_forms"@
    ||| id == "list_navigation_groups"@
    ||| id == "get_form_schema"@
    ||| id == "get_form_schema_contract"@
    ||| id == "get_form_relationships"@
    ||| id == "get_related_records"@
    ||| id == "list_form_records"@
    ||| id == "query_form_records"@
    ||| id == "aggregate_form_records"@
    ||| id == "get_detail_form_definition"@
    ||| id == "list_detail_records"@
}

/// Whether a tool for automations reads them.
pub open spec fn reads_automations(id: Seq<char>) -> bool {
    id == "list_automations"@ || id == "get_automation_graph"@
}

/// The group that a tool is shown in.
pub open spec fn group_of(id: Seq<char>, category: Seq<char>) -> Seq<char> {
    if category == "app"@ && builds_apps(id) {
        "构建"@
    } else if category == "app"@ && reads_apps(id) {
        "分析"@
    } else if category == "form"@ {
        if reads_forms(id) {
            "分析"@
        } else {
            "构建"@
        }
    } else if category == "automation"@ {
        if reads_automations(id) {
            "分析"@
        } else {
            "构建"@
        }
    } else if category == "workflow"@ {
        "分析"@
    } else if category == "plugin"@ || category == "script"@ {
        "扩展"@
    } else {
        "通用"@
    }
}

/// Whether a tool for forms reads them.
fn form_reader(id: &str) -> (r: bool)
    ensures
        r == reads_forms(id@),
{
    text::same(id, "list_forms")
        || text::same(id, "list_navigation_groups")
        || text::same(id, "get_form_schema")
        || text::same(id, "get_form_schema_contract")
        || text::same(id, "get_form_relationships")
        || text::same(id, "get_related_records")
        || text::same(id, "list_form_records")
        || text::same(id, "query_form_records")
        || text::same(id, "aggregate_form_records")
        || text::same(id, "get_detail_form_definition")
        || text::same(id, "list_detail_records")
}

/// The group that a tool is shown in.
pub fn platform_tool_group(id: &str, category: &str) -> (r: &'static str)
    ensures
        r@ == group_of(id@, category@),
{
    if text::same(category, "app") && (text::same(id, "create_app") || text::same(id, "update_app")
        || text::same(id, "delete_app")) {
        "构建"
    } else if text::same(category, "app") && (text::same(id, "list_apps") || text::same(
        id,
        "get_application_business_context",
    )) {
        "分析"
    } else if text::same(category, "form") {
        if form_reader(id) {
            "分析"
        } else {
            "构建"
        }
    } else if text::same(category, "automation") {
        if text::same(id, "list_automations") || text::same(id, "get_automation_graph") {
            "分析"
        } else {
            "构建"
        }
    } else if text::same(category, "workflow") {
        "分析"
    } else if text::same(category, "plugin") || text::same(category, "script") {
        "扩展"
    } else {
        "通用"
    }
}

/// A tool, with the group it is shown in.
pub open spec fn tool(
    id: Seq<char>,
    title: Seq<char>,
    description: Seq<char>,
    category: Seq<char>,
    risk_level: Seq<char>,
) -> PlatformToolView {
    PlatformToolView {
        id,
        title,
        description,
        category,
        group: group_of(id, category),
        risk_level,
    }
}

/// A tool, with the group it is shown in.
pub fn platform_tool(
    id: &'static str,
    title: &'static str,
    description: &'static str,
    category: &'static str,
    risk_level: &'static str,
) -> (r: PlatformTool)
    ensures
        r@ == tool(id@, title@, description@, category@, risk_level@),
{
    PlatformTool {
        id,
        title,
        description,
        category,
        group: platform_tool_group(id, category),
        risk_level,
    }
}

/// The tools of the platform.
pub open spec fn tools() -> Seq<PlatformToolView> {
    seq![
        tool(
            "list_apps"@,
            "读取应用列表"@,
            "查询当前可访问的应用。"@,
            "app"@,
            "read"@,
        ),
        tool(
            "create_app"@,
            "创建应用"@,
            "创建新的低代码应用。"@,
            "app"@,
            "write"@,
        ),
        tool(
            "update_app"@,
            "编辑应用"@,
            "修改低代码应用的名称、描述或状态。"@,
            "app"@,
            "write"@,
        ),
        tool(
            "delete_app"@,
            "删除应用"@,
            "永久删除低代码应用及其资源，始终要求人工确认。"@,
            "app"@,
            "destructive"@,
        ),
        tool(
            "get_application_business_context"@,
            "读取应用业务地图"@,
            "读取应用说明、表单、字段摘要、关联关系和明细父表关系。"@,
            "app"@,
            "read"@,
        ),
        tool(
            "list_forms"@,
            "读取表单列表"@,
            "查询应用内表单元数据。"@,
            "form"@,
            "read"@,
        ),
        tool(
            "list_navigation_groups"@,
            "读取导航分组"@,
            "读取应用导航分组的真实 ID 和层级，用于创建或移动表单。"@,
            "form"@,
            "read"@,
        ),
        tool(
            "create_navigation_group"@,
            "创建导航分组"@,
            "在应用导航中创建根级或嵌套分组。"@,
            "form"@,
            "write"@,
        ),
        tool(
            "delete_navigation_group"@,
            "删除导航分组"@,
            "删除分组容器并将内部项目上移，需用户确认。"@,
            "form"@,
            "destructive"@,
        ),
        tool(
            "get_form_schema"@,
            "读取表单 Schema"@,
            "读取表单当前版本结构和字段。"@,
            "form"@,
            "read"@,
        ),
        tool(
            "get_form_schema_contract"@,
            "读取表单 Schema 规范"@,
            "读取平台通用表单 Schema 结构、字段布局和表单类型规则；没有参考表单时用于设计新表单。"@,
            "form"@,
            "read"@,
        ),
        tool(
            "get_form_relationships"@,
            "读取表单关系"@,
            "读取 Schema 中的关联字段、目标表单和填充规则。"@,
            "form"@,
            "read"@,
        ),
        tool(
            "get_related_records"@,
            "追溯关联记录"@,
            "沿已配置关联字段批量读取目标表单记录。"@,
            "form"@,
            "read"@,
        ),
        tool(
            "list_form_records"@,
            "读取表单记录"@,
            "读取已授权表单最近的有限记录，用于业务分析。"@,
            "form"@,
            "read"@,
        ),
        tool(
            "query_form_records"@,
            "条件查询表单记录"@,
            "在指定页的有限记录中按字段条件筛选，用于分析。"@,
            "form"@,
            "read"@,
        ),
        tool(
            "aggregate_form_records"@,
            "汇总表单记录"@,
            "对有限页范围内的记录执行计数、求和、平均值或分组计数。"@,
            "form"@,
            "read"@,
        ),
        tool(
            "get_detail_form_definition"@,
            "读取明细表定义"@,
            "读取明细表与父表、子表字段的关联。"@,
            "form"@,
            "read"@,
        ),
        tool(
            "list_detail_records"@,
            "读取明细表记录"@,
            "读取父表子表字段中的有限明细行。"@,
            "form"@,
            "read"@,
        ),
        tool(
            "create_form"@,
            "创建表单"@,
            "创建空白表单；还要求运行时允许创建表单。"@,
            "form"@,
            "write"@,
        ),
        tool(
            "move_form_to_group"@,
            "移动表单到分组"@,
            "将已有表单移动到指定导航分组或根级。"@,
            "form"@,
            "write"@,
        ),
        tool(
            "create_detail_form"@,
            "生成明细表配置"@,
            "为父表的 subform 字段生成明细表。"@,
            "form"@,
            "write"@,
        ),
        tool(
            "save_form_schema"@,
            "保存表单 Schema"@,
            "保存表单 Schema 后立即成为当前版本。"@,
            "form"@,
            "write"@,
        ),
        tool(
            "delete_form"@,
            "删除表单"@,
            "永久删除表单及其 Schema、记录、导航和关联资源，始终要求人工确认。"@,
            "form"@,
            "destructive"@,
        ),
        tool(
            "list_automations"@,
            "读取自动化列表"@,
            "查询应用内集成自动化。"@,
            "automation"@,
            "read"@,
        ),
        tool(
            "get_automation_graph"@,
            "读取自动化流程"@,
            "读取自动化的触发器、节点和连线。"@,
            "automation"@,
            "read"@,
        ),
        tool(
            "create_automation_draft"@,
            "创建自动化草稿"@,
            "创建待确认的事件自动化草稿，确认后保持 draft 状态。"@,
            "automation"@,
            "write"@,
        ),
        tool(
            "delete_automation"@,
            "删除集成自动化"@,
            "永久删除普通事件集成自动化，始终要求人工确认。"@,
            "automation"@,
            "destructive"@,
        ),
        tool(
            "get_workflow_process_definition"@,
            "读取工作流定义"@,
            "读取工作流表单的流程节点和连线。"@,
            "workflow"@,
            "read"@,
        ),
        tool(
            "get_workflow_record_runtime"@,
            "读取工作流运行态"@,
            "读取一条工作流记录的实例、待办和动作轨迹。"@,
            "workflow"@,
            "read"@,
        ),
    ]
}

/// The tools of the platform.
pub fn platform_tool_catalog() -> (r: Vec<PlatformTool>)
    ensures
        text::views(r@) == tools(),
{
    let catalog: Vec<PlatformTool> = vec![
        platform_tool(
            "list_apps",
            "读取应用列表",
            "查询当前可访问的应用。",
            "app",
            "read",
        ),
        platform_tool(
            "create_app",
            "创建应用",
            "创建新的低代码应用。",
            "app",
            "write",
        ),
        platform_tool(
            "update_app",
            "编辑应用",
            "修改低代码应用的名称、描述或状态。",
            "app",
            "write",
        ),
        platform_tool(
            "delete_app",
            "删除应用",
            "永久删除低代码应用及其资源，始终要求人工确认。",
            "app",
            "destructive",
        ),
        platform_tool(
            "get_application_business_context",
            "读取应用业务地图",
            "读取应用说明、表单、字段摘要、关联关系和明细父表关系。",
            "app",
            "read",
        ),
        platform_tool(
            "list_forms",
            "读取表单列表",
            "查询应用内表单元数据。",
            "form",
            "read",
        ),
        platform_tool(
            "list_navigation_groups",
            "读取导航分组",
            "读取应用导航分组的真实 ID 和层级，用于创建或移动表单。",
            "form",
            "read",
        ),
        platform_tool(
            "create_navigation_group",
            "创建导航分组",
            "在应用导航中创建根级或嵌套分组。",
            "form",
            "write",
        ),
        platform_tool(
            "delete_navigation_group",
            "删除导航分组",
            "删除分组容器并将内部项目上移，需用户确认。",
            "form",
            "destructive",
        ),
        platform_tool(
            "get_form_schema",
            "读取表单 Schema",
            "读取表单当前版本结构和字段。",
            "form",
            "read",
        ),
        platform_tool(
            "get_form_schema_contract",
            "读取表单 Schema 规范",
            "读取平台通用表单 Schema 结构、字段布局和表单类型规则；没有参考表单时用于设计新表单。",
            "form",
            "read",
        ),
        platform_tool(
            "get_form_relationships",
            "读取表单关系",
            "读取 Schema 中的关联字段、目标表单和填充规则。",
            "form",
            "read",
        ),
        platform_tool(
            "get_related_records",
            "追溯关联记录",
            "沿已配置关联字段批量读取目标表单记录。",
            "form",
            "read",
        ),
        platform_tool(
            "list_form_records",
            "读取表单记录",
            "读取已授权表单最近的有限记录，用于业务分析。",
            "form",
            "read",
        ),
        platform_tool(
            "query_form_records",
            "条件查询表单记录",
            "在指定页的有限记录中按字段条件筛选，用于分析。",
            "form",
            "read",
        ),
        platform_tool(
            "aggregate_form_records",
            "汇总表单记录",
            "对有限页范围内的记录执行计数、求和、平均值或分组计数。",
            "form",
            "read",
        ),
        platform_tool(
            "get_detail_form_definition",
            "读取明细表定义",
            "读取明细表与父表、子表字段的关联。",
            "form",
            "read",
        ),
        platform_tool(
            "list_detail_records",
            "读取明细表记录",
            "读取父表子表字段中的有限明细行。",
            "form",
            "read",
        ),
        platform_tool(
            "create_form",
            "创建表单",
            "创建空白表单；还要求运行时允许创建表单。",
            "form",
            "write",
        ),
        platform_tool(
            "move_form_to_group",
            "移动表单到分组",
            "将已有表单移动到指定导航分组或根级。",
            "form",
            "write",
        ),
        platform_tool(
            "create_detail_form",
            "生成明细表配置",
            "为父表的 subform 字段生成明细表。",
            "form",
            "write",
        ),
        platform_tool(
            "save_form_schema",
            "保存表单 Schema",
            "保存表单 Schema 后立即成为当前版本。",
            "form",
            "write",
        ),
        platform_tool(
            "delete_form",
            "删除表单",
            "永久删除表单及其 Schema、记录、导航和关联资源，始终要求人工确认。",
            "form",
            "destructive",
        ),
        platform_tool(
            "list_automations",
            "读取自动化列表",
            "查询应用内集成自动化。",
            "automation",
            "read",
        ),
        platform_tool(
            "get_automation_graph",
            "读取自动化流程",
            "读取自动化的触发器、节点和连线。",
            "automation",
            "read",
        ),
        platform_tool(
            "create_automation_draft",
            "创建自动化草稿",
            "创建待确认的事件自动化草稿，确认后保持 draft 状态。",
            "automation",
            "write",
        ),
        platform_tool(
            "delete_automation",
            "删除集成自动化",
            "永久删除普通事件集成自动化，始终要求人工确认。",
            "automation",
            "destructive",
        ),
        platform_tool(
            "get_workflow_process_definition",
            "读取工作流定义",
            "读取工作流表单的流程节点和连线。",
            "workflow",
            "read",
        ),
        platform_tool(
            "get_workflow_record_runtime",
            "读取工作流运行态",
            "读取一条工作流记录的实例、待办和动作轨迹。",
            "workflow",
            "read",
        ),
    ];
    assert(text::views(catalog@) =~= tools());
    catalog
}

/// Whether a tool is shown where it belongs: what only reads among the analysis
/// tools, and what writes or deletes among the building tools.
pub open spec fn is_well_placed(shown: PlatformToolView) -> bool {
    if shown.risk_level == "read"@ {
        shown.group == "分析"@
    } else {
        &&& shown.risk_level == "write"@ || shown.risk_level == "destructive"@
        &&& shown.group == "构建"@
    }
}

proof fn lemma_form_builders(id: Seq<char>)
    requires
        id == "create_navigation_group"@
            || id == "delete_navigation_group"@
            || id == "create_form"@
            || id == "move_form_to_group"@
            || id == "create_detail_form"@
            || id == "save_form_schema"@
            || id == "delete_form"@,
    ensures
        !reads_forms(id),
{
    reveal_strlit("list_forms");
    reveal_strlit("list_navigation_groups");
    reveal_strlit("get_form_schema");
    reveal_strlit("get_form_schema_contract");
    reveal_strlit("get_form_relationships");
    reveal_strlit("get_related_records");
    reveal_strlit("list_form_records");
    reveal_strlit("query_form_records");
    reveal_strlit("aggregate_form_records");
    reveal_strlit("get_detail_form_definition");
    reveal_strlit("list_detail_records");
    reveal_strlit("create_navigation_group");
    reveal_strlit("delete_navigation_group");
    reveal_strlit("create_form");
    reveal_strlit("move_form_to_group");
    reveal_strlit("create_detail_form");
    reveal_strlit("save_form_schema");
    reveal_strlit("delete_form");
    assert("list_forms"@.len() == 10);
    assert("list_navigation_groups"@.len() == 22);
    assert("get_form_schema"@.len() == 15);
    assert("get_form_schema_contract"@.len() == 24);
    assert("get_form_relationships"@.len() == 22);
    assert("get_related_records"@.len() == 19);
    assert("list_form_records"@.len() == 17);
    assert("query_form_records"@.len() == 18);
    assert("aggregate_form_records"@.len() == 22);
    assert("get_detail_form_definition"@.len() == 26);
    assert("list_detail_records"@.len() == 19);
    assert("create_navigation_group"@.len() == 23);
    assert("delete_navigation_group"@.len() == 23);
    assert("create_form"@.len() == 11);
    assert("move_form_to_group"@.len() == 18);
    assert("create_detail_form"@.len() == 18);
    assert("save_form_schema"@.len() == 16);
    assert("delete_form"@.len() == 11);
    assert("move_form_to_group"@[0] == 'm' && "query_form_records"@[0] == 'q');
    assert("create_detail_form"@[0] == 'c' && "query_form_records"@[0] == 'q');
}

proof fn lemma_automation_builders(id: Seq<char>)
    requires
        id == "create_automation_draft"@ || id == "delete_automation"@,
    ensures
        !reads_automations(id),
{
    reveal_strlit("create_automation_draft");
    assert("create_automation_draft"@.len() == 23);
    reveal_strlit("delete_automation");
    assert("delete_automation"@.len() == 17);
    reveal_strlit("list_automations");
    assert("list_automations"@.len() == 16);
    reveal_strlit("get_automation_graph");
    assert("get_automation_graph"@.len() == 20);
}

proof fn lemma_categories_differ()
    ensures
        "app"@ != "form"@,
        "app"@ != "automation"@,
        "app"@ != "workflow"@,
        "form"@ != "automation"@,
        "form"@ != "workflow"@,
        "automation"@ != "workflow"@,
        "read"@ != "write"@,
        "read"@ != "destructive"@,
        !builds_apps("list_apps"@),
        !builds_apps("get_application_business_context"@),
{
    reveal_strlit("read");
    assert("read"@.len() == 4);
    reveal_strlit("write");
    assert("write"@.len() == 5);
    reveal_strlit("destructive");
    assert("destructive"@.len() == 11);
    reveal_strlit("app");
    assert("app"@.len() == 3);
    reveal_strlit("form");
    assert("form"@.len() == 4);
    reveal_strlit("automation");
    assert("automation"@.len() == 10);
    reveal_strlit("workflow");
    assert("workflow"@.len() == 8);
    reveal_strlit("list_apps");
    assert("list_apps"@.len() == 9);
    reveal_strlit("get_application_business_context");
    assert("get_application_business_context"@.len() == 32);
    reveal_strlit("create_app");
    assert("create_app"@.len() == 10);
    reveal_strlit("update_app");
    assert("update_app"@.len() == 10);
    reveal_strlit("delete_app");
    assert("delete_app"@.len() == 10);
}

/// Every tool of the platform that only reads is shown among the analysis tools, and
/// every other one, which writes or deletes, among the building tools.
pub proof fn law_tools_are_grouped_by_what_they_do()
    ensures
        forall|i: int| 0 <= i < tools().len() ==> is_well_placed(#[trigger] tools()[i]),
{
    lemma_categories_differ();
    lemma_form_builders("create_navigation_group"@);
    lemma_form_builders("delete_navigation_group"@);
    lemma_form_builders("create_form"@);
    lemma_form_builders("move_form_to_group"@);
    lemma_form_builders("create_detail_form"@);
    lemma_form_builders("save_form_schema"@);
    lemma_form_builders("delete_form"@);
    lemma_automation_builders("create_automation_draft"@);
    lemma_automation_builders("delete_automation"@);
    let all = tools();
    assert(all.len() == 29);
    assert(is_well_placed(all[0]));
    assert(is_well_placed(all[1]));
    assert(is_well_placed(all[2]));
    assert(is_well_placed(all[3]));
    assert(is_well_placed(all[4]));
    assert(is_well_placed(all[5]));
    assert(is_well_placed(all[6]));
    assert(is_well_placed(all[7]));
    assert(is_well_placed(all[8]));
    assert(is_well_placed(all[9]));
    assert(is_well_placed(all[10]));
    assert(is_well_placed(all[11]));
    assert(is_well_placed(all[12]));
    assert(is_well_placed(all[13]));
    assert(is_well_placed(all[14]));
    assert(is_well_placed(all[15]));
    assert(is_well_placed(all[16]));
    assert(is_well_placed(all[17]));
    assert(is_well_placed(all[18]));
    assert(is_well_placed(all[19]));
    assert(is_well_placed(all[20]));
    assert(is_well_placed(all[21]));
    assert(is_well_placed(all[22]));
    assert(is_well_placed(all[23]));
    assert(is_well_placed(all[24]));
    assert(is_well_placed(all[25]));
    assert(is_well_placed(all[26]));
    assert(is_well_placed(all[27]));
    assert(is_well_placed(all[28]));
}

/// Tools that plug in or run scripts are shown among the extensions, and tools of a
/// category of their own among the general ones.
pub proof fn law_other_tools_are_grouped_by_category(id: Seq<char>, category: Seq<char>)
    ensures
        category == "plugin"@ || category == "script"@ ==> group_of(id, category) == "扩展"@,
        category == "workflow"@ ==> group_of(id, category) == "分析"@,
        category != "app"@ && category != "form"@ && category != "automation"@ && category
            != "workflow"@ && category != "plugin"@ && category != "script"@ ==> group_of(
            id,
            category,
        ) == "通用"@,
{
    reveal_strlit("app");
    reveal_strlit("form");
    reveal_strlit("automation");
    reveal_strlit("workflow");
    reveal_strlit("plugin");
    reveal_strlit("script");
    assert("app"@.len() == 3);
    assert("form"@.len() == 4);
    assert("automation"@.len() == 10);
    assert("workflow"@.len() == 8);
    assert("plugin"@.len() == 6);
    assert("script"@.len() == 6);
    assert("plugin"@[0] == 'p');
    assert("script"@[0] == 's');
}

/// A tool is what it was declared as.
pub proof fn law_tool_is_as_declared(
    id: Seq<char>,
    title: Seq<char>,
    description: Seq<char>,
    category: Seq<char>,
    risk_level: Seq<char>,
)
    ensures
        ({
            let made = tool(id, title, description, category, risk_level);
            &&& made.id == id
            &&& made.title == title
            &&& made.description == description
            &&& made.category == category
            &&& made.risk_level == risk_level
        }),
{
}

} // verus!
